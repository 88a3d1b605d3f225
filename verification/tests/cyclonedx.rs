use bombon::cyclonedx::{
    dedup_key_of, key_of, ComponentBody, CycloneDXComponent, CycloneDXComponents, Dependency, NixComponent,
    VendoredBom, VendoredBomError, VendoredDependencies,
};

fn comp(bom_ref: Option<&str>, name: &str, purl: Option<&str>, version: &str) -> CycloneDXComponent {
    CycloneDXComponent {
        bom_ref: bom_ref.map(|s| s.to_string()),
        name: name.to_string(),
        purl: purl.map(|s| s.to_string()),
        body: ComponentBody::Nix(NixComponent {
            version: version.to_string(),
            scope: None,
            hashes: None,
            licenses: None,
            description: None,
            cpe: None,
            evidence: None,
            external_references: None,
            patches: None,
        }),
    }
}

fn version_of(c: &CycloneDXComponent) -> String {
    match &c.body {
        ComponentBody::Nix(n) => n.version.clone(),
        ComponentBody::Vendored(_) => String::new(),
    }
}

fn dep(r: &str, ds: &[&str]) -> Dependency {
    Dependency { dependency_ref: r.to_string(), dependencies: ds.iter().map(|s| s.to_string()).collect() }
}

fn names(cs: &CycloneDXComponents) -> Vec<String> {
    cs.0.iter().map(|c| c.name.clone()).collect()
}

#[test]
fn keys_fall_back_to_name() {
    assert_eq!(key_of(&comp(Some("r"), "n", Some("p"), "1")), "r");
    assert_eq!(key_of(&comp(None, "n", Some("p"), "1")), "n");
    assert_eq!(dedup_key_of(&comp(Some("r"), "n", Some("p"), "1")), "p");
    assert_eq!(dedup_key_of(&comp(Some("r"), "n", None, "1")), "r");
    assert_eq!(dedup_key_of(&comp(None, "n", None, "1")), "n");
}

#[test]
fn deduplicate_keeps_first_of_each_key() {
    let mut cs = CycloneDXComponents(vec![
        comp(Some("a"), "a", Some("pkg:nix/a@1"), "1"),
        comp(Some("b"), "b", Some("pkg:nix/a@1"), "2"),
        comp(Some("c"), "c", None, "3"),
        comp(Some("c"), "d", None, "4"),
        comp(None, "e", None, "5"),
        comp(None, "e", None, "6"),
        comp(None, "c", None, "7"),
    ]);
    cs.deduplicate();
    assert_eq!(names(&cs), vec!["a", "c", "e"]);
    assert_eq!(version_of(&cs.0[2]), "5");
}

#[test]
fn deduplicate_twice_changes_nothing() {
    let mut cs = CycloneDXComponents(vec![
        comp(Some("x"), "x", None, "1"),
        comp(Some("x"), "y", None, "2"),
        comp(Some("z"), "z", None, "3"),
    ]);
    cs.deduplicate();
    let once = names(&cs);
    cs.deduplicate();
    assert_eq!(names(&cs), once);
    assert_eq!(once, vec!["x", "z"]);
}

#[test]
fn bom_refs_are_the_keys() {
    let cs = CycloneDXComponents(vec![comp(Some("r1"), "n1", None, "1"), comp(None, "n2", None, "1")]);
    let refs = cs.bom_refs();
    assert_eq!(refs.len(), 2);
    assert!(refs.contains("r1"));
    assert!(refs.contains("n2"));
    assert!(!refs.contains("n1"));
}

#[test]
fn vendored_dependencies_extend() {
    let mut v = VendoredDependencies::new();
    assert!(v.0.is_empty());
    v.extend(VendoredDependencies(vec![dep("a", &["b"])]));
    v.extend(VendoredDependencies(vec![dep("c", &[])]));
    assert_eq!(v.0.len(), 2);
    assert_eq!(v.0[0].dependency_ref, "a");
    assert_eq!(v.0[1].dependency_ref, "c");
}

#[test]
fn merge_vendored_merges_by_key_and_remaps_root() {
    let mut cs = CycloneDXComponents(vec![
        comp(Some("zz-owner-1.0"), "owner", None, "own"),
        comp(Some("pkg:cargo/serde@1"), "serde", None, "mine"),
    ]);
    let boms = vec![
        VendoredBom {
            root_ref: Some("root".to_string()),
            components: Some(vec![
                comp(Some("pkg:cargo/serde@1"), "serde", None, "theirs"),
                comp(Some("pkg:cargo/anyhow@1"), "anyhow", None, "1"),
            ]),
            dependencies: Some(vec![dep("root", &["pkg:cargo/serde@1", "root"]), dep("pkg:cargo/serde@1", &[])]),
        },
        VendoredBom { root_ref: None, components: None, dependencies: Some(vec![dep("root", &["x"])]) },
    ];
    let deps = cs.merge_vendored(boms, "/nix/store/zz-owner-1.0");
    assert_eq!(names(&cs), vec!["anyhow", "serde", "owner"]);
    assert_eq!(version_of(&cs.0[1]), "mine");
    assert_eq!(deps.0.len(), 3);
    assert_eq!(deps.0[0].dependency_ref, "zz-owner-1.0");
    assert_eq!(deps.0[0].dependencies, vec!["pkg:cargo/serde@1".to_string(), "zz-owner-1.0".to_string()]);
    assert_eq!(deps.0[1].dependency_ref, "pkg:cargo/serde@1");
    assert_eq!(deps.0[2].dependency_ref, "root");
    assert_eq!(deps.0[2].dependencies, vec!["x".to_string()]);
}

#[test]
fn merge_no_boms_sorts_by_key() {
    let mut cs = CycloneDXComponents(vec![comp(Some("b"), "b", None, "1"), comp(Some("a"), "a", None, "1")]);
    let deps = cs.merge_vendored(vec![], "/nix/store/x");
    assert!(deps.0.is_empty());
    assert_eq!(names(&cs), vec!["a", "b"]);
}

const VENDORED_SBOM: &str = r#"{
  "bomFormat": "CycloneDX",
  "specVersion": "1.5",
  "version": 1,
  "metadata": {
    "component": { "type": "application", "name": "app", "bom-ref": "app-root" }
  },
  "components": [
    { "type": "library", "name": "serde", "version": "1.0.0", "bom-ref": "serde-ref", "purl": "pkg:cargo/serde@1.0.0" },
    { "type": "library", "name": "anyhow", "version": "1.0.0" }
  ],
  "dependencies": [
    { "ref": "app-root", "dependsOn": ["serde-ref"] },
    { "ref": "serde-ref", "dependsOn": [] }
  ]
}"#;

#[test]
fn extend_from_directory_parses_documents() {
    let mut cs = CycloneDXComponents(vec![comp(Some("o-owner-1"), "owner", None, "1")]);
    let deps = match cs.extend_from_directory(vec![VENDORED_SBOM.as_bytes().to_vec()], "/nix/store/o-owner-1") {
        Ok(d) => d,
        Err(e) => panic!("not parsed: {e:?}"),
    };
    assert_eq!(names(&cs), vec!["anyhow", "owner", "serde"]);
    assert_eq!(cs.0[2].bom_ref.as_deref(), Some("serde-ref"));
    assert_eq!(cs.0[2].purl.as_deref(), Some("pkg:cargo/serde@1.0.0"));
    assert!(cs.0[0].bom_ref.is_none());
    assert!(matches!(cs.0[2].body, ComponentBody::Vendored(_)));
    assert_eq!(deps.0.len(), 2);
    assert_eq!(deps.0[0].dependency_ref, "o-owner-1");
    assert_eq!(deps.0[0].dependencies, vec!["serde-ref".to_string()]);
    assert_eq!(deps.0[1].dependency_ref, "serde-ref");
}

#[test]
fn extend_from_directory_refuses_other_files() {
    let mut cs = CycloneDXComponents(vec![comp(Some("b"), "b", None, "1"), comp(Some("a"), "a", None, "1")]);
    let r = cs.extend_from_directory(
        vec![VENDORED_SBOM.as_bytes().to_vec(), b"not json".to_vec()],
        "/nix/store/o-owner-1",
    );
    assert!(matches!(r, Err(VendoredBomError::Unparsable)));
    assert_eq!(names(&cs), vec!["b", "a"]);
    let empty = cs.extend_from_directory(vec![], "/nix/store/o-owner-1");
    assert!(matches!(empty, Ok(d) if d.0.is_empty()));
    assert_eq!(names(&cs), vec!["a", "b"]);
}
