use bombon::buildtime_input::BuildtimeInput;
use bombon::cyclonedx::{ComponentBody, CycloneDXComponent, CycloneDXComponents, Dependency, NixComponent, VendoredDependencies};
use bombon::dependencies::CycloneDXDependencies;
use bombon::derivation::Derivation;
use bombon::runtime_input::{ClosureEntry, RuntimeInput};

fn drv(path: &str, build_references: &[&str]) -> Derivation {
    Derivation {
        path: path.to_string(),
        name: None,
        pname: None,
        version: Some("1".to_string()),
        meta: None,
        output_name: None,
        output_hash: None,
        src: None,
        vendored_sbom: None,
        patches: vec![],
        build_references: build_references.iter().map(|s| s.to_string()).collect(),
    }
}

fn comp(bom_ref: &str) -> CycloneDXComponent {
    CycloneDXComponent {
        bom_ref: Some(bom_ref.to_string()),
        name: bom_ref.to_string(),
        purl: None,
        body: ComponentBody::Nix(NixComponent {
            version: String::new(),
            scope: None,
            hashes: None,
            licenses: None,
            description: None,
            cpe: None,
            evidence: None,
            external_references: None,
            patches: None,
        }),
    }
}

fn dep(r: &str, ds: &[&str]) -> Dependency {
    Dependency { dependency_ref: r.to_string(), dependencies: ds.iter().map(|s| s.to_string()).collect() }
}

fn graph(d: &CycloneDXDependencies) -> Vec<(String, Vec<String>)> {
    d.0.iter().map(|e| (e.dependency_ref.clone(), e.dependencies.clone())).collect()
}

fn owned(r: &str, ds: &[&str]) -> (String, Vec<String>) {
    (r.to_string(), ds.iter().map(|s| s.to_string()).collect())
}

struct Setup {
    components: CycloneDXComponents,
    target: Derivation,
    runtime: RuntimeInput,
    buildtime: BuildtimeInput,
}

fn setup() -> Setup {
    let components = CycloneDXComponents(vec![comp("a-hello-1.0"), comp("g-glibc-2.38"), comp("pkg:cargo/serde@1")]);
    let target = drv("/nix/store/t-target", &[]);
    let runtime = RuntimeInput::from_entries(vec![
        ClosureEntry {
            path: "/nix/store/a-hello-1.0".to_string(),
            references: vec!["/nix/store/g-glibc-2.38".to_string(), "/nix/store/m-missing".to_string()],
        },
        ClosureEntry { path: "/nix/store/m-missing".to_string(), references: vec!["/nix/store/a-hello-1.0".to_string()] },
    ]);
    let buildtime = BuildtimeInput::from_derivations(vec![
        drv("/nix/store/a-hello-1.0", &["/nix/store/a-hello-1.0", "/nix/store/t-target"]),
        drv("/nix/store/m-missing", &["/nix/store/g-glibc-2.38"]),
    ]);
    Setup { components, target, runtime, buildtime }
}

fn vendored() -> VendoredDependencies {
    VendoredDependencies(vec![dep("a-hello-1.0", &["pkg:cargo/serde@1", "nope"]), dep("nope", &["a-hello-1.0"])])
}

#[test]
fn graph_with_buildtime_dependencies() {
    let s = setup();
    let d = CycloneDXDependencies::assemble(&s.components, &s.target, &s.runtime, &s.buildtime, true, vendored());
    assert_eq!(
        graph(&d),
        vec![
            owned("a-hello-1.0", &["g-glibc-2.38", "pkg:cargo/serde@1", "t-target"]),
            owned("g-glibc-2.38", &[]),
            owned("pkg:cargo/serde@1", &[]),
            owned("t-target", &[]),
        ]
    );
}

#[test]
fn graph_without_buildtime_dependencies() {
    let s = setup();
    let d = CycloneDXDependencies::assemble(&s.components, &s.target, &s.runtime, &s.buildtime, false, vendored());
    assert_eq!(
        graph(&d),
        vec![
            owned("a-hello-1.0", &["g-glibc-2.38", "pkg:cargo/serde@1"]),
            owned("g-glibc-2.38", &[]),
            owned("pkg:cargo/serde@1", &[]),
            owned("t-target", &[]),
        ]
    );
}

#[test]
fn graph_declares_every_component_once() {
    let components = CycloneDXComponents(vec![comp("b"), comp("a"), comp("b")]);
    let target = drv("/nix/store/a", &[]);
    let runtime = RuntimeInput::from_entries(vec![]);
    let buildtime = BuildtimeInput::from_derivations(vec![]);
    let d = CycloneDXDependencies::assemble(&components, &target, &runtime, &buildtime, true, VendoredDependencies::new());
    assert_eq!(graph(&d), vec![owned("a", &[]), owned("b", &[])]);
}

#[test]
fn graph_merges_repeated_vendored_entries() {
    let components = CycloneDXComponents(vec![comp("x"), comp("y"), comp("z")]);
    let target = drv("/nix/store/x", &[]);
    let runtime = RuntimeInput::from_entries(vec![]);
    let buildtime = BuildtimeInput::from_derivations(vec![]);
    let v = VendoredDependencies(vec![dep("x", &["z"]), dep("x", &["y", "z"])]);
    let d = CycloneDXDependencies::assemble(&components, &target, &runtime, &buildtime, false, v);
    assert_eq!(graph(&d), vec![owned("x", &["y", "z"]), owned("y", &[]), owned("z", &[])]);
}

#[test]
fn graph_without_buildtime_ignores_buildtime_input() {
    let s = setup();
    let other = BuildtimeInput::from_derivations(vec![drv("/nix/store/a-hello-1.0", &["/nix/store/g-glibc-2.38"])]);
    let a = CycloneDXDependencies::assemble(&s.components, &s.target, &s.runtime, &s.buildtime, false, vendored());
    let b = CycloneDXDependencies::assemble(&s.components, &s.target, &s.runtime, &other, false, vendored());
    assert_eq!(graph(&a), graph(&b));
}

#[test]
fn graph_is_reproducible() {
    let s = setup();
    let a = CycloneDXDependencies::assemble(&s.components, &s.target, &s.runtime, &s.buildtime, true, vendored());
    let b = CycloneDXDependencies::assemble(&s.components, &s.target, &s.runtime, &s.buildtime, true, vendored());
    assert_eq!(graph(&a), graph(&b));
}
