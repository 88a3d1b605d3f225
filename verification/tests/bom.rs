use bombon::bom::{derive_serial_number, metadata_from_derivation, metadata_tools, CycloneDXBom, VERSION};
use bombon::cyclonedx::{ComponentBody, CycloneDXComponents, Dependency, ExternalReferenceType, LicenseChoice};
use bombon::dependencies::CycloneDXDependencies;
use bombon::derivation::Derivation;

fn drv(path: &str, pname: &str, version: &str) -> Derivation {
    Derivation {
        path: path.to_string(),
        name: None,
        pname: Some(pname.to_string()),
        version: Some(version.to_string()),
        meta: None,
        output_name: None,
        output_hash: None,
        src: None,
        vendored_sbom: None,
        patches: vec![],
        build_references: vec![],
    }
}

#[test]
fn serial_number_of_empty_data() {
    assert_eq!(derive_serial_number(b""), "urn:uuid:e3b0c442-98fc-1c14-9afb-f4c8996fb924");
}

#[test]
fn serial_number_of_abc() {
    assert_eq!(derive_serial_number(b"abc"), "urn:uuid:ba7816bf-8f01-cfea-4141-40de5dae2223");
}

#[test]
fn serial_number_is_reproducible() {
    let path = b"/nix/store/0123456789abcdfghijklmnpqrsvwxyz-hello-sbom.json";
    let a = derive_serial_number(path);
    let b = derive_serial_number(path);
    assert_eq!(a, b);
    assert_eq!(a.len(), 45);
    assert!(a.starts_with("urn:uuid:"));
    assert_ne!(a, derive_serial_number(b"/nix/store/other"));
}

#[test]
fn tool_metadata() {
    let tools = metadata_tools();
    assert_eq!(tools.len(), 1);
    let t = &tools[0];
    assert_eq!(t.name, "bombon");
    assert!(t.bom_ref.is_none());
    assert!(t.purl.is_none());
    let n = match &t.body {
        ComponentBody::Nix(n) => n,
        ComponentBody::Vendored(_) => panic!("tool is not vendored"),
    };
    assert_eq!(n.version, VERSION);
    assert_eq!(VERSION, "0.4.0");
    assert_eq!(n.description.as_deref(), Some("Nix CycloneDX Software Bills of Materials (SBOMs)"));
    assert!(matches!(n.licenses.as_deref(), Some([LicenseChoice::SpdxId(s)]) if s == "MIT"));
    let refs = match &n.external_references {
        Some(r) => r,
        None => panic!("no references"),
    };
    assert_eq!(refs.len(), 1);
    assert_eq!(refs[0].reference_type, ExternalReferenceType::Website);
    assert_eq!(refs[0].url, "https://github.com/nikstur/bombon");
}

#[test]
fn metadata_describes_the_target() {
    let m = metadata_from_derivation(drv("/nix/store/aaa-hello-2.12", "hello", "2.12"));
    assert_eq!(m.tools.len(), 1);
    assert_eq!(m.component.name, "hello");
    assert_eq!(m.component.bom_ref.as_deref(), Some("aaa-hello-2.12"));
}

#[test]
fn build_leaves_out_empty_dependency_graph() {
    let bom = CycloneDXBom::build(
        drv("/nix/store/aaa-hello-2.12", "hello", "2.12"),
        CycloneDXComponents(vec![]),
        CycloneDXDependencies(vec![]),
        b"",
    );
    assert!(bom.0.dependencies.is_none());
    assert!(bom.0.components.is_empty());
    assert_eq!(bom.0.serial_number, "urn:uuid:e3b0c442-98fc-1c14-9afb-f4c8996fb924");
    assert_eq!(bom.0.metadata.component.name, "hello");
}

#[test]
fn build_keeps_dependency_graph() {
    let bom = CycloneDXBom::build(
        drv("/nix/store/aaa-hello-2.12", "hello", "2.12"),
        CycloneDXComponents(vec![]),
        CycloneDXDependencies(vec![Dependency { dependency_ref: "aaa-hello-2.12".to_string(), dependencies: vec![] }]),
        b"abc",
    );
    let deps = match &bom.0.dependencies {
        Some(d) => d,
        None => panic!("graph dropped"),
    };
    assert_eq!(deps.len(), 1);
    assert_eq!(deps[0].dependency_ref, "aaa-hello-2.12");
    assert_eq!(bom.0.serial_number, "urn:uuid:ba7816bf-8f01-cfea-4141-40de5dae2223");
}
