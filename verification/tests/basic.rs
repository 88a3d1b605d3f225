use bombon::cyclonedx::{ComponentBody, CycloneDXComponent, ExternalReferenceType, LicenseChoice};
use bombon::basic::buildtime_input::{BuildtimeInput, Derivation, License, LicenseField, LicenseList, Meta};
use bombon::basic::cyclonedx::{
    convert_homepage, convert_license, convert_licenses, derivation_to_component, input_to_components,
    metadata_tools, CycloneDXBom,
};
use bombon::basic::input;
use bombon::strmap::StrSet;

fn drv(path: &str, name: Option<&str>, version: Option<&str>) -> Derivation {
    Derivation {
        path: path.to_string(),
        name: name.map(|s| s.to_string()),
        pname: None,
        version: version.map(|s| s.to_string()),
        meta: None,
    }
}

fn is_urn_uuid(s: &str) -> bool {
    let Some(rest) = s.strip_prefix("urn:uuid:") else { return false };
    let groups: Vec<&str> = rest.split('-').collect();
    groups.iter().map(|g| g.len()).collect::<Vec<_>>() == vec![8, 4, 4, 4, 12]
        && groups.iter().all(|g| g.chars().all(|c| c.is_ascii_hexdigit() && !c.is_ascii_uppercase()))
}

fn nix(c: &CycloneDXComponent) -> &bombon::cyclonedx::NixComponent {
    match &c.body {
        ComponentBody::Nix(n) => n,
        ComponentBody::Vendored(_) => panic!("not a Nix component"),
    }
}

#[test]
fn remove_derivation_takes_first_and_swaps_last_in() {
    let mut bt = BuildtimeInput(vec![
        drv("/nix/store/a", Some("a"), None),
        drv("/nix/store/t", Some("t1"), None),
        drv("/nix/store/b", Some("b"), None),
        drv("/nix/store/t", Some("t2"), None),
        drv("/nix/store/c", Some("c"), None),
    ]);
    let t = bt.remove_derivation("/nix/store/t");
    assert_eq!(t.name.as_deref(), Some("t1"));
    let rest: Vec<&str> = bt.0.iter().map(|d| d.name.as_deref().unwrap_or("")).collect();
    assert_eq!(rest, vec!["a", "c", "b", "t2"]);
}

#[test]
fn buildtime_derivations_equal_by_name() {
    assert!(drv("/nix/store/x", Some("n"), None) == drv("/nix/store/y", Some("n"), Some("1")));
    assert!(drv("/nix/store/x", Some("n"), None) != drv("/nix/store/x", Some("m"), None));
    assert!(drv("/nix/store/x", None, None) == drv("/nix/store/y", None, None));
    let names: Vec<String> = BuildtimeInput(vec![drv("/a", Some("1"), None), drv("/b", Some("2"), None)])
        .into_iter()
        .map(|d| d.path)
        .collect();
    assert_eq!(names, vec!["/a", "/b"]);
}

#[test]
fn input_license_ids() {
    let list = input::LicenseField::LicenseList(input::LicenseList(vec![
        input::License { spdx_id: "MIT".to_string() },
        input::License { spdx_id: "Apache-2.0".to_string() },
    ]));
    assert_eq!(list.into_vec(), vec!["MIT".to_string(), "Apache-2.0".to_string()]);
    let one = input::LicenseField::License(input::License { spdx_id: "GPL-2.0-only".to_string() });
    assert_eq!(one.into_vec(), vec!["GPL-2.0-only".to_string()]);
}

#[test]
fn input_derivations_in_order_and_equal_by_name() {
    let d = |n: &str| input::Derivation { name: Some(n.to_string()), pname: None, version: None, meta: None };
    assert!(d("x") == d("x"));
    assert!(d("x") != d("y"));
    let names: Vec<Option<String>> = input::Input(vec![d("b"), d("a")]).into_iter().map(|d| d.name).collect();
    assert_eq!(names, vec![Some("b".to_string()), Some("a".to_string())]);
}

#[test]
fn basic_license_conversion() {
    let known = convert_license(License { full_name: "MIT License".to_string(), spdx_id: Some("MIT".to_string()) });
    assert!(matches!(known, LicenseChoice::SpdxId(s) if s == "MIT"));
    let unknown = convert_license(License { full_name: "Weird".to_string(), spdx_id: Some("NOT-A-LICENSE".to_string()) });
    assert!(matches!(unknown, LicenseChoice::Named(s) if s == "Weird"));
    let none = convert_license(License { full_name: "Plain".to_string(), spdx_id: None });
    assert!(matches!(none, LicenseChoice::Named(s) if s == "Plain"));

    let m = Meta { license: Some(LicenseField::String("unfree".to_string())), homepage: None };
    assert!(matches!(convert_licenses(&m), Some(v) if v.is_empty()));
    let m = Meta { license: None, homepage: None };
    assert!(convert_licenses(&m).is_none());
    let m = Meta {
        license: Some(LicenseField::LicenseList(LicenseList(vec![License {
            full_name: "BSD".to_string(),
            spdx_id: Some("BSD-3-Clause".to_string()),
        }]))),
        homepage: None,
    };
    assert!(matches!(convert_licenses(&m).as_deref(), Some([LicenseChoice::SpdxId(s)]) if s == "BSD-3-Clause"));
}

#[test]
fn basic_homepage_must_be_a_uri() {
    let ok = Meta { license: None, homepage: Some("https://example.org/".to_string()) };
    let refs = match convert_homepage(&ok) {
        Some(r) => r,
        None => panic!("no reference"),
    };
    assert_eq!(refs.len(), 1);
    assert_eq!(refs[0].reference_type, ExternalReferenceType::Website);
    assert_eq!(refs[0].url, "https://example.org/");
    let bad = Meta { license: None, homepage: Some("not a uri".to_string()) };
    assert!(convert_homepage(&bad).is_none());
}

#[test]
fn basic_component_has_random_reference() {
    let mut d = drv("/nix/store/a-hello-1.0", Some("hello-1.0"), Some("1.0"));
    d.pname = Some("hello".to_string());
    let c = derivation_to_component(d);
    assert_eq!(c.name, "hello");
    assert_eq!(c.purl.as_deref(), Some("pkg:nix/hello@1.0"));
    let r = c.bom_ref.clone().unwrap_or_default();
    assert!(is_urn_uuid(&r), "{r}");
    assert_eq!(nix(&c).version, "1.0");
    let c2 = derivation_to_component(drv("/nix/store/a-hello-1.0", Some("hello-1.0"), Some("1.0")));
    assert_ne!(c2.bom_ref.unwrap_or_default(), r);
}

#[test]
fn basic_components_unique_by_name_in_closure() {
    let bt = BuildtimeInput(vec![
        drv("/nix/store/a-x-1", Some("x-1"), Some("1")),
        drv("/nix/store/b-x-1", Some("x-1"), Some("1")),
        drv("/nix/store/c-y-1", Some("y-1"), Some("1")),
        drv("/nix/store/d-z-1", Some("z-1"), Some("1")),
    ]);
    let mut closure = StrSet::new();
    closure.insert("/nix/store/b-x-1".to_string());
    closure.insert("/nix/store/c-y-1".to_string());
    let cs = input_to_components(bt, &closure);
    let names: Vec<&str> = cs.iter().map(|c| c.name.as_str()).collect();
    assert_eq!(names, vec!["y-1"]);
}

#[test]
fn basic_bom() {
    let bt = BuildtimeInput(vec![
        drv("/nix/store/a-x-1", Some("x-1"), Some("1")),
        drv("/nix/store/c-y-1", Some("y-1"), Some("1")),
    ]);
    let bom = CycloneDXBom::build(drv("/nix/store/t-t-1", Some("t-1"), Some("1")), bt, vec!["/nix/store/c-y-1", "/nix/store/a-x-1"], "abc123");
    let names: Vec<&str> = bom.0.components.iter().map(|c| c.name.as_str()).collect();
    assert_eq!(names, vec!["x-1", "y-1"]);
    assert_eq!(bom.0.metadata.component.name, "t-1");
    let tools = metadata_tools("abc123");
    assert_eq!(tools.len(), 1);
    assert_eq!(tools[0].vendor, "nikstur");
    assert_eq!(bom.0.metadata.tools[0].version, "abc123");
    assert_eq!(bom.0.metadata.tools[0].name, "bombon");
}
