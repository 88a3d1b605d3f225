use bombon::buildtime_input::BuildtimeInput;
use bombon::component::sources_are_valid;
use bombon::cyclonedx::{CycloneDXComponents, VendoredDependencies};
use bombon::derivation::Derivation;
use bombon::runtime_input::{ClosureEntry, RuntimeInput};
use bombon::transform::{find_target, finish, select_derivations, vendored_sboms, PathFilter, TransformError};

fn drv(path: &str, name: Option<&str>, version: Option<&str>, output_name: Option<&str>) -> Derivation {
    Derivation {
        path: path.to_string(),
        name: name.map(|s| s.to_string()),
        pname: None,
        version: version.map(|s| s.to_string()),
        meta: None,
        output_name: output_name.map(|s| s.to_string()),
        output_hash: None,
        src: None,
        vendored_sbom: None,
        patches: vec![],
        build_references: vec![],
    }
}

fn buildtime() -> BuildtimeInput {
    BuildtimeInput::from_derivations(vec![
        drv("/nix/store/a-hello-1.0", Some("hello-1.0"), Some("1.0"), Some("out")),
        drv("/nix/store/c-gcc-13", Some("gcc-13"), Some("13"), None),
        drv("/nix/store/d-gcc-13", Some("gcc-13"), Some("13"), None),
        drv("/nix/store/e-hello-1.0-man", Some("hello-man"), Some("1.0"), Some("man")),
        drv("/nix/store/f-src", None, None, None),
        drv("/nix/store/g-secret-1", Some("secret-1"), Some("1"), None),
        drv("/nix/store/h-hello-1.0-doc", Some("hello-doc"), Some("1.0"), Some("doc")),
    ])
}

fn runtime() -> RuntimeInput {
    RuntimeInput::from_entries(vec![
        ClosureEntry { path: "/nix/store/z-glibc-2.38".to_string(), references: vec![] },
        ClosureEntry { path: "/nix/store/a-hello-1.0".to_string(), references: vec!["/nix/store/z-glibc-2.38".to_string()] },
        ClosureEntry { path: "/nix/store/y-etc".to_string(), references: vec![] },
    ])
}

fn paths(ds: &[Derivation]) -> Vec<&str> {
    ds.iter().map(|d| d.path.as_str()).collect()
}

#[test]
fn invalid_exclude_pattern() {
    assert!(matches!(PathFilter::new(vec!["(".to_string()]), Err(TransformError::InvalidExcludePattern)));
    assert!(PathFilter::new(vec![]).is_ok());
}

#[test]
fn exclude_patterns_match_paths() {
    let f = match PathFilter::new(vec!["secret".to_string(), "^/nix/store/z-".to_string()]) {
        Ok(f) => f,
        Err(e) => panic!("not built: {e:?}"),
    };
    let selected = select_derivations(true, &f, &buildtime(), &runtime());
    assert_eq!(paths(&selected), vec!["/nix/store/a-hello-1.0", "/nix/store/c-gcc-13"]);
    let anchored = match PathFilter::new(vec!["^hello".to_string()]) {
        Ok(f) => f,
        Err(e) => panic!("not built: {e:?}"),
    };
    let selected = select_derivations(false, &anchored, &buildtime(), &runtime());
    assert_eq!(paths(&selected), vec!["/nix/store/a-hello-1.0", "/nix/store/z-glibc-2.38"]);
}

#[test]
fn target_must_be_in_buildtime_input() {
    let bt = buildtime();
    let t = match find_target(&bt, "/nix/store/c-gcc-13") {
        Ok(t) => t,
        Err(e) => panic!("not found: {e:?}"),
    };
    assert_eq!(t.name.as_deref(), Some("gcc-13"));
    assert!(matches!(find_target(&bt, "/nix/store/nope"), Err(TransformError::MissingTarget)));
}

#[test]
fn runtime_closure_only() {
    let f = match PathFilter::new(vec!["secret".to_string()]) {
        Ok(f) => f,
        Err(e) => panic!("not built: {e:?}"),
    };
    let selected = select_derivations(false, &f, &buildtime(), &runtime());
    assert_eq!(paths(&selected), vec!["/nix/store/a-hello-1.0", "/nix/store/z-glibc-2.38"]);
    assert_eq!(selected[1].name.as_deref(), Some("glibc"));
    assert_eq!(selected[1].version.as_deref(), Some("2.38"));
    assert_eq!(selected[0].output_name.as_deref(), Some("out"));
}

#[test]
fn with_buildtime_dependencies() {
    let f = match PathFilter::new(vec!["secret".to_string()]) {
        Ok(f) => f,
        Err(e) => panic!("not built: {e:?}"),
    };
    let selected = select_derivations(true, &f, &buildtime(), &runtime());
    assert_eq!(paths(&selected), vec!["/nix/store/a-hello-1.0", "/nix/store/z-glibc-2.38", "/nix/store/c-gcc-13"]);
}

#[test]
fn without_exclude_patterns() {
    let f = match PathFilter::new(vec![]) {
        Ok(f) => f,
        Err(e) => panic!("not built: {e:?}"),
    };
    let selected = select_derivations(true, &f, &buildtime(), &runtime());
    assert_eq!(
        paths(&selected),
        vec!["/nix/store/a-hello-1.0", "/nix/store/z-glibc-2.38", "/nix/store/c-gcc-13", "/nix/store/g-secret-1"]
    );
}

#[test]
fn finish_deduplicates_and_derives_serial_number() {
    let bt = buildtime();
    let rt = runtime();
    let f = match PathFilter::new(vec![]) {
        Ok(f) => f,
        Err(e) => panic!("not built: {e:?}"),
    };
    let target = match find_target(&bt, "/nix/store/a-hello-1.0") {
        Ok(t) => t,
        Err(e) => panic!("not found: {e:?}"),
    };
    assert!(sources_are_valid(&target));
    let mut selected = select_derivations(false, &f, &bt, &rt);
    selected.push(drv("/nix/store/a-hello-1.0", Some("hello-1.0"), Some("1.0"), None));
    let components = CycloneDXComponents::from_derivations(selected);
    assert_eq!(components.0.len(), 3);
    let bom = finish(target, components, VendoredDependencies::new(), &rt, &bt, false, b"");
    assert_eq!(bom.0.components.len(), 2);
    assert_eq!(bom.0.serial_number, "urn:uuid:e3b0c442-98fc-1c14-9afb-f4c8996fb924");
    assert_eq!(bom.0.metadata.component.bom_ref.as_deref(), Some("a-hello-1.0"));
    let deps = match &bom.0.dependencies {
        Some(d) => d,
        None => panic!("no graph"),
    };
    let refs: Vec<&str> = deps.iter().map(|d| d.dependency_ref.as_str()).collect();
    assert_eq!(refs, vec!["a-hello-1.0", "z-glibc-2.38"]);
    assert_eq!(deps[0].dependencies, vec!["z-glibc-2.38".to_string()]);
}

#[test]
fn vendored_sboms_in_path_order() {
    let mut a = drv("/nix/store/z-rustapp-1", Some("rustapp-1"), Some("1"), None);
    a.vendored_sbom = Some("/nix/store/s-sboms-z".to_string());
    let mut b = drv("/nix/store/b-goapp-2", Some("goapp-2"), Some("2"), None);
    b.vendored_sbom = Some("/nix/store/s-sboms-b".to_string());
    let c = drv("/nix/store/c-plain-1", Some("plain-1"), Some("1"), None);
    let bt = BuildtimeInput::from_derivations(vec![a, c, b]);
    assert_eq!(
        vendored_sboms(&bt),
        vec![
            ("/nix/store/s-sboms-b".to_string(), "/nix/store/b-goapp-2".to_string()),
            ("/nix/store/s-sboms-z".to_string(), "/nix/store/z-rustapp-1".to_string()),
        ]
    );
    assert!(vendored_sboms(&buildtime()).is_empty());
}

#[test]
fn finish_is_reproducible() {
    let run = || {
        let bt = buildtime();
        let rt = runtime();
        let f = match PathFilter::new(vec![]) {
            Ok(f) => f,
            Err(e) => panic!("not built: {e:?}"),
        };
        let target = match find_target(&bt, "/nix/store/a-hello-1.0") {
            Ok(t) => t,
            Err(e) => panic!("not found: {e:?}"),
        };
        let components = CycloneDXComponents::from_derivations(select_derivations(true, &f, &bt, &rt));
        let bom = finish(target, components, VendoredDependencies::new(), &rt, &bt, true, b"/nix/store/out-sbom.json");
        let names: Vec<String> = bom.0.components.iter().map(|c| c.name.clone()).collect();
        let graph: Vec<(String, Vec<String>)> = match &bom.0.dependencies {
            Some(d) => d.iter().map(|e| (e.dependency_ref.clone(), e.dependencies.clone())).collect(),
            None => vec![],
        };
        (bom.0.serial_number.clone(), names, graph)
    };
    assert_eq!(run(), run());
}
