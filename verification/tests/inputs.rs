use bombon::buildtime_input::BuildtimeInput;
use bombon::derivation::Derivation;
use bombon::runtime_input::{ClosureEntry, RuntimeInput};

fn drv(path: &str, name: Option<&str>, version: Option<&str>) -> Derivation {
    Derivation {
        path: path.to_string(),
        name: name.map(|s| s.to_string()),
        pname: None,
        version: version.map(|s| s.to_string()),
        meta: None,
        output_name: None,
        output_hash: None,
        src: None,
        vendored_sbom: None,
        patches: vec![],
        build_references: vec![],
    }
}

fn entry(path: &str, refs: &[&str]) -> ClosureEntry {
    ClosureEntry { path: path.to_string(), references: refs.iter().map(|s| s.to_string()).collect() }
}

#[test]
fn runtime_input_drops_self_references() {
    let rt = RuntimeInput::from_entries(vec![
        entry("/nix/store/b-bash", &["/nix/store/b-bash", "/nix/store/g-glibc"]),
        entry("/nix/store/g-glibc", &["/nix/store/g-glibc"]),
    ]);
    assert_eq!(rt.paths.len(), 2);
    assert_eq!(rt.paths.get(0), "/nix/store/b-bash");
    assert_eq!(rt.paths.get(1), "/nix/store/g-glibc");
    assert_eq!(rt.references.get("/nix/store/b-bash"), Some(&vec!["/nix/store/g-glibc".to_string()]));
    assert_eq!(rt.references.get("/nix/store/g-glibc"), Some(&vec![]));
}

#[test]
fn runtime_input_later_entry_wins() {
    let rt = RuntimeInput::from_entries(vec![
        entry("/nix/store/a", &["/nix/store/x"]),
        entry("/nix/store/a", &["/nix/store/y", "/nix/store/a"]),
    ]);
    assert_eq!(rt.paths.len(), 1);
    assert_eq!(rt.references.get("/nix/store/a"), Some(&vec!["/nix/store/y".to_string()]));
}

#[test]
fn runtime_input_empty() {
    let rt = RuntimeInput::from_entries(vec![]);
    assert_eq!(rt.paths.len(), 0);
    assert_eq!(rt.references.len(), 0);
}

#[test]
fn buildtime_input_keyed_by_path_later_wins() {
    let bt = BuildtimeInput::from_derivations(vec![
        drv("/nix/store/z-zlib-1.3", Some("zlib-1.3"), Some("1.3")),
        drv("/nix/store/a-bash-5.2", Some("bash-5.2"), Some("5.2")),
        drv("/nix/store/z-zlib-1.3", Some("zlib-again"), Some("1.3")),
    ]);
    assert_eq!(bt.0.len(), 2);
    assert_eq!(bt.0.key_at(0), "/nix/store/a-bash-5.2");
    assert_eq!(bt.0.key_at(1), "/nix/store/z-zlib-1.3");
    let z = match bt.0.get("/nix/store/z-zlib-1.3") {
        Some(d) => d,
        None => panic!("missing"),
    };
    assert_eq!(z.name.as_deref(), Some("zlib-again"));
    assert!(bt.0.get("/nix/store/missing").is_none());
}
