//! The CycloneDX document that the transformer writes, as plain values.
use vstd::prelude::*;

use crate::strmap::{lemma_sorted_index, StrMap, StrSet};
use crate::text::{bom_ref, bom_ref_of, key_equal, opt_view, str_views, strictly_sorted};

verus! {

/// A component as the `cyclonedx-bom` crate represents it.
#[verifier::external_type_specification]
#[verifier::external_body]
pub struct ExBomComponent(cyclonedx_bom::models::component::Component);

#[derive(Clone, Copy, Debug, PartialEq, Eq, Structural)]
pub enum HashAlgorithm {
    Md5,
    Sha1,
    Sha256,
    Sha512,
}

/// A hash of some content: its algorithm and its digest as lower-case hex.
pub struct ComponentHash {
    pub alg: HashAlgorithm,
    pub content: String,
}

#[derive(Clone, Copy, Debug, PartialEq, Eq, Structural)]
pub enum ExternalReferenceType {
    Vcs,
    Website,
}

pub struct ExternalReference {
    pub reference_type: ExternalReferenceType,
    pub url: String,
    pub hashes: Option<Vec<ComponentHash>>,
}

/// A license of a component: an SPDX identifier, a name where there is none, or an SPDX
/// expression, which can also stand for a compound license.
pub enum LicenseChoice {
    SpdxId(String),
    Named(String),
    Expression(String),
}

#[derive(Clone, Copy, Debug, PartialEq, Eq, Structural)]
pub enum Scope {
    Required,
}

/// A way by which a possible identity of a component was found: the technique, and the value
/// it found.
pub struct EvidenceMethod {
    pub technique: String,
    pub value: Option<String>,
}

/// The part of a component that this crate derives from Nix.
pub struct NixComponent {
    pub version: String,
    pub scope: Option<Scope>,
    pub hashes: Option<Vec<ComponentHash>>,
    pub licenses: Option<Vec<LicenseChoice>>,
    pub description: Option<String>,
    pub cpe: Option<String>,
    /// How the possible CPEs were found; each has an equal share of the confidence.
    pub evidence: Option<Vec<EvidenceMethod>>,
    pub external_references: Option<Vec<ExternalReference>>,
    /// The patch files applied to the source; their contents form the pedigree.
    pub patches: Option<Vec<String>>,
}

pub enum ComponentBody {
    Nix(NixComponent),
    /// A component read from a vendored SBOM, carried through unchanged.
    Vendored(cyclonedx_bom::models::component::Component),
}

/// A component: what the assembly reads of it, and the rest of it.
pub struct CycloneDXComponent {
    pub bom_ref: Option<String>,
    pub name: String,
    pub purl: Option<String>,
    pub body: ComponentBody,
}

/// An entry of the dependency graph: a reference and the references it depends on.
pub struct Dependency {
    pub dependency_ref: String,
    pub dependencies: Vec<String>,
}

/// The key under which a component is merged: its reference, else its name.
pub open spec fn component_key(c: CycloneDXComponent) -> Seq<char> {
    match c.bom_ref {
        Some(r) => r@,
        None => c.name@,
    }
}

/// The key under which components are deduplicated: the package URL, else the merge key.
pub open spec fn dedup_key(c: CycloneDXComponent) -> Seq<char> {
    match c.purl {
        Some(p) => p@,
        None => component_key(c),
    }
}

pub open spec fn dep_view(d: Dependency) -> (Seq<char>, Seq<Seq<char>>) {
    (d.dependency_ref@, str_views(d.dependencies@))
}

pub open spec fn deps_view(s: Seq<Dependency>) -> Seq<(Seq<char>, Seq<Seq<char>>)> {
    s.map_values(|d: Dependency| dep_view(d))
}

/// Some component of `cs` has key `x`.
pub open spec fn has_component_key(cs: Seq<CycloneDXComponent>, x: Seq<char>) -> bool {
    exists|i: int| 0 <= i < cs.len() && component_key(#[trigger] cs[i]) == x
}

/// The key of a component.
pub fn key_of(c: &CycloneDXComponent) -> (r: String)
    ensures
        r@ == component_key(*c),
{
    match &c.bom_ref {
        Some(r) => r.clone(),
        None => c.name.clone(),
    }
}

/// The components that end up in the document.
pub struct CycloneDXComponents(pub Vec<CycloneDXComponent>);

impl CycloneDXComponents {
    /// The set of references of the components currently held.
    pub fn bom_refs(&self) -> (r: StrSet)
        ensures
            r.wf(),
            forall|x: Seq<char>| #[trigger] r.has(x) <==> has_component_key(self.0@, x),
    {
        let mut r = StrSet::new();
        let mut i: usize = 0;
        while i < self.0.len()
            invariant
                i <= self.0@.len(),
                r.wf(),
                forall|x: Seq<char>| #[trigger] r.has(x) <==> has_component_key(self.0@.take(i as int), x),
            decreases self.0@.len() - i,
        {
            let k = key_of(&self.0[i]);
            let ghost kv = k@;
            r.insert(k);
            assert forall|x: Seq<char>| #[trigger] r.has(x) <==> has_component_key(self.0@.take(i + 1), x) by {
                let s = self.0@.take(i + 1);
                if x == kv {
                    assert(component_key(s[i as int]) == x);
                }
                if has_component_key(self.0@.take(i as int), x) {
                    let j = choose|j: int| 0 <= j < i && component_key(#[trigger] self.0@.take(i as int)[j]) == x;
                    assert(s[j] == self.0@.take(i as int)[j]);
                }
                if has_component_key(s, x) {
                    let j = choose|j: int| 0 <= j < i + 1 && component_key(#[trigger] s[j]) == x;
                    if j < i {
                        assert(s[j] == self.0@.take(i as int)[j]);
                    }
                }
            }
            i = i + 1;
        }
        assert(self.0@.take(self.0@.len() as int) =~= self.0@);
        r
    }
}

/// The (language-level) dependency edges carried by vendored SBOMs, before they are
/// reconciled against the components that actually end up in the final BOM.
pub struct VendoredDependencies(pub Vec<Dependency>);

impl VendoredDependencies {
    pub fn new() -> (r: Self)
        ensures
            r.0@.len() == 0,
    {
        VendoredDependencies(Vec::new())
    }

    /// Merge in the edges from another set of vendored dependencies.
    pub fn extend(&mut self, other: VendoredDependencies)
        ensures
            final(self).0@ == old(self).0@ + other.0@,
    {
        let mut other = other;
        self.0.append(&mut other.0);
    }
}

/// What a vendored SBOM contributes: its components, its dependency graph, and the reference
/// of the component that it describes.
pub struct VendoredBom {
    pub root_ref: Option<String>,
    pub components: Option<Vec<CycloneDXComponent>>,
    pub dependencies: Option<Vec<Dependency>>,
}

pub open spec fn bom_components(b: VendoredBom) -> Seq<CycloneDXComponent> {
    match b.components {
        Some(v) => v@,
        None => Seq::empty(),
    }
}

pub open spec fn bom_dependencies(b: VendoredBom) -> Seq<Dependency> {
    match b.dependencies {
        Some(v) => v@,
        None => Seq::empty(),
    }
}

/// The components of a list of vendored SBOMs, one SBOM after the other.
pub open spec fn vendored_components(boms: Seq<VendoredBom>) -> Seq<CycloneDXComponent>
    decreases boms.len(),
{
    if boms.len() == 0 {
        Seq::empty()
    } else {
        vendored_components(boms.drop_last()) + bom_components(boms.last())
    }
}

/// A reference, with the root of a vendored SBOM replaced by the owner's reference.
pub open spec fn remap_ref(s: Seq<char>, root: Option<Seq<char>>, owner: Seq<char>) -> Seq<char> {
    match root {
        Some(r) => if s == r { owner } else { s },
        None => s,
    }
}

pub open spec fn remap_dep(d: (Seq<char>, Seq<Seq<char>>), root: Option<Seq<char>>, owner: Seq<char>) -> (Seq<char>, Seq<Seq<char>>) {
    (remap_ref(d.0, root, owner), d.1.map_values(|s: Seq<char>| remap_ref(s, root, owner)))
}

/// Replaces the root of a vendored SBOM by the owner in a dependency entry.
pub open spec fn remapper(root: Option<Seq<char>>, owner: Seq<char>) -> spec_fn((Seq<char>, Seq<Seq<char>>)) -> (Seq<char>, Seq<Seq<char>>) {
    |d: (Seq<char>, Seq<Seq<char>>)| remap_dep(d, root, owner)
}

/// The dependency graphs of a list of vendored SBOMs, their roots replaced by the owner.
pub open spec fn vendored_deps(boms: Seq<VendoredBom>, owner: Seq<char>) -> Seq<(Seq<char>, Seq<Seq<char>>)>
    decreases boms.len(),
{
    if boms.len() == 0 {
        Seq::empty()
    } else {
        vendored_deps(boms.drop_last(), owner) + deps_view(bom_dependencies(boms.last())).map_values(
            remapper(opt_view(boms.last().root_ref), owner))
    }
}

/// `c` is the first component of `all` with its key.
pub open spec fn first_of_key(all: Seq<CycloneDXComponent>, c: CycloneDXComponent) -> bool {
    exists|j: int| 0 <= j < all.len() && all[j] == c && forall|k: int| 0 <= k < j ==> component_key(#[trigger] all[k]) != component_key(c)
}

pub open spec fn component_keys(cs: Seq<CycloneDXComponent>) -> Seq<Seq<char>> {
    cs.map_values(|c: CycloneDXComponent| component_key(c))
}

/// A reference with the root replaced by the owner.
fn remap(s: String, root: &Option<String>, owner: &String) -> (r: String)
    ensures
        r@ == remap_ref(s@, opt_view(*root), owner@),
{
    match root {
        Some(rt) => if key_equal(s.as_str(), rt.as_str()) { owner.clone() } else { s },
        None => s,
    }
}

/// A dependency entry with the root replaced by the owner.
fn remap_dependency(d: Dependency, root: &Option<String>, owner: &String) -> (r: Dependency)
    ensures
        dep_view(r) == remap_dep(dep_view(d), opt_view(*root), owner@),
{
    let ghost dv = dep_view(d);
    let Dependency { dependency_ref, dependencies } = d;
    let mut subs: Vec<String> = Vec::new();
    let ghost src = dependencies@;
    for sub in it: dependencies
        invariant
            it.seq() == src,
            subs@.len() == it.index(),
            forall|j: int| 0 <= j < it.index() ==> (#[trigger] subs@[j])@ == remap_ref(src[j]@, opt_view(*root), owner@),
    {
        subs.push(remap(sub, root, owner));
    }
    let r = Dependency { dependency_ref: remap(dependency_ref, root, owner), dependencies: subs };
    assert(dep_view(r).1 =~= remap_dep(dv, opt_view(*root), owner@).1);
    r
}

/// Keeps, for each key, the component that came first, and collects the components in key order.
fn merge_by_key(all: Vec<CycloneDXComponent>) -> (r: Vec<CycloneDXComponent>)
    ensures
        strictly_sorted(component_keys(r@)),
        forall|x: Seq<char>| #[trigger] has_component_key(r@, x) <==> has_component_key(all@, x),
        forall|i: int| 0 <= i < r@.len() ==> first_of_key(all@, #[trigger] r@[i]),
{
    let ghost a = all@;
    let mut m: StrMap<CycloneDXComponent> = StrMap::new();
    let ghost mut n: int = 0;
    for c in it: all
        invariant
            it.seq() == a,
            n == it.index(),
            0 <= n <= a.len(),
            m.wf(),
            forall|x: Seq<char>| #[trigger] m.has(x) <==> has_component_key(a.take(n), x),
            forall|x: Seq<char>| m.has(x) ==> component_key(#[trigger] m.value_of(x)) == x,
            forall|x: Seq<char>| m.has(x) ==> first_of_key(a.take(n), #[trigger] m.value_of(x)),
    {
        let ghost p = a.take(n);
        let ghost q = a.take(n + 1);
        let ghost cv = c;
        let ghost m0 = m;
        assert(cv == a[n]);
        assert(q =~= p.push(cv));
        let k = key_of(&c);
        let added = m.insert_if_absent(k, c);
        proof {
            assert forall|x: Seq<char>| #[trigger] m.has(x) <==> has_component_key(q, x) by {
                if added {
                    assert(m.to_map().dom().contains(x) == m.has(x));
                    assert(m0.to_map().dom().contains(x) == m0.has(x));
                }
                if has_component_key(q, x) {
                    let j = choose|j: int| 0 <= j < q.len() && component_key(#[trigger] q[j]) == x;
                    if j < n {
                        assert(p[j] == q[j]);
                    }
                }
                if has_component_key(p, x) {
                    let j = choose|j: int| 0 <= j < p.len() && component_key(#[trigger] p[j]) == x;
                    assert(p[j] == q[j]);
                }
                if x == component_key(cv) {
                    assert(q[n] == cv);
                }
            }
            assert forall|x: Seq<char>| m.has(x) implies component_key(#[trigger] m.value_of(x)) == x
                && first_of_key(q, m.value_of(x)) by {
                if added {
                    assert(m.to_map().dom().contains(x));
                    assert(m.to_map()[x] == m.value_of(x));
                }
                if m0.has(x) {
                    if added {
                        assert(m0.to_map()[x] == m0.value_of(x));
                    }
                    assert(m.value_of(x) == m0.value_of(x));
                    let c0 = m0.value_of(x);
                    let j = choose|j: int| 0 <= j < p.len() && p[j] == c0
                        && forall|k: int| 0 <= k < j ==> component_key(#[trigger] p[k]) != component_key(c0);
                    assert(q[j] == c0);
                    assert forall|k: int| 0 <= k < j implies component_key(#[trigger] q[k]) != component_key(c0) by {
                        assert(q[k] == p[k]);
                    }
                } else {
                    assert(x == component_key(cv));
                    assert(m.value_of(x) == cv);
                    assert(q[n] == cv);
                    assert forall|k: int| 0 <= k < n implies component_key(#[trigger] q[k]) != component_key(cv) by {
                        assert(q[k] == p[k]);
                        if component_key(p[k]) == x {
                            assert(has_component_key(p, x));
                        }
                    }
                }
            }
        }
        proof {
            n = n + 1;
        }
    }
    assert(a.take(n) =~= a);
    let ghost mf = m;
    let (_ks, vs) = m.into_parts();
    proof {
        assert(component_keys(vs@) =~= mf.keys()) by {
            assert forall|i: int| 0 <= i < vs@.len() implies component_key(vs@[i]) == mf.keys()[i] by {
                let k = mf.keys()[i];
                assert(mf.keys().contains(k));
                lemma_sorted_index(mf.keys(), k, i);
                assert(mf.value_of(k) == vs@[i]);
            }
        }
        assert forall|x: Seq<char>| #[trigger] has_component_key(vs@, x) <==> has_component_key(a, x) by {
            if has_component_key(vs@, x) {
                let i = choose|i: int| 0 <= i < vs@.len() && component_key(#[trigger] vs@[i]) == x;
                assert(component_keys(vs@)[i] == x);
                assert(mf.keys()[i] == x);
                assert(mf.keys().contains(x));
                assert(mf.has(x));
            }
            if has_component_key(a, x) {
                assert(mf.has(x));
                let i = choose|i: int| 0 <= i < mf.keys().len() && mf.keys()[i] == x;
                assert(component_keys(vs@)[i] == x);
                assert(component_key(vs@[i]) == x);
            }
        }
        assert forall|i: int| 0 <= i < vs@.len() implies first_of_key(a, #[trigger] vs@[i]) by {
            let k = mf.keys()[i];
            assert(mf.keys().contains(k));
            lemma_sorted_index(mf.keys(), k, i);
            assert(mf.value_of(k) == vs@[i]);
        }
    }
    vs
}

/// `after` merges `before` with the components of `boms`: in key order, one for each key, the
/// first component of that key.
pub open spec fn merged_components(
    before: Seq<CycloneDXComponent>,
    boms: Seq<VendoredBom>,
    after: Seq<CycloneDXComponent>,
) -> bool {
    let all = before + vendored_components(boms);
    &&& strictly_sorted(component_keys(after))
    &&& forall|x: Seq<char>| #[trigger] has_component_key(after, x) <==> has_component_key(all, x)
    &&& forall|i: int| 0 <= i < after.len() ==> first_of_key(all, #[trigger] after[i])
}

/// Why vendored SBOMs cannot be merged.
#[derive(Clone, Copy, Debug, PartialEq, Eq, Structural)]
pub enum VendoredBomError {
    /// A file is not a CycloneDX document in JSON.
    Unparsable,
}

/// What the `cyclonedx-bom` crate's JSON parser reads of a document, where it accepts the bytes:
/// the reference of the component that the document describes; the reference, name and package
/// URL of each of its components; and its dependency graph.
pub uninterp spec fn vendored_bom_json(bytes: Seq<u8>) -> Option<
    (
        Option<Seq<char>>,
        Option<Seq<(Option<Seq<char>>, Seq<char>, Option<Seq<char>>)>>,
        Option<Seq<(Seq<char>, Seq<Seq<char>>)>>,
    ),
>;

/// The reference, name and package URL of a component.
pub open spec fn component_ids(c: CycloneDXComponent) -> (Option<Seq<char>>, Seq<char>, Option<Seq<char>>) {
    (opt_view(c.bom_ref), c.name@, opt_view(c.purl))
}

/// What the library reads of a vendored SBOM, in the shape of `vendored_bom_json`.
pub open spec fn bom_summary(b: VendoredBom) -> (
    Option<Seq<char>>,
    Option<Seq<(Option<Seq<char>>, Seq<char>, Option<Seq<char>>)>>,
    Option<Seq<(Seq<char>, Seq<Seq<char>>)>>,
) {
    (
        opt_view(b.root_ref),
        match b.components {
            Some(v) => Some(v@.map_values(|c: CycloneDXComponent| component_ids(c))),
            None => None,
        },
        match b.dependencies {
            Some(v) => Some(deps_view(v@)),
            None => None,
        },
    )
}

/// Calls `Bom::parse_from_json` of `cyclonedx-bom` on the bytes and takes out the root's
/// reference, the components (each kept whole, with its reference, name and package URL as
/// text) and the dependency graph. Claimed: it fails exactly where `vendored_bom_json` has no
/// value, and otherwise gives what `vendored_bom_json` names.
#[verifier::external_body]
fn parse_vendored_bom(bytes: &[u8]) -> (r: Option<VendoredBom>)
    ensures
        match r {
            Some(b) => vendored_bom_json(bytes@) == Some(bom_summary(b)),
            None => vendored_bom_json(bytes@) is None,
        },
{
    let bom = cyclonedx_bom::models::bom::Bom::parse_from_json(bytes).ok()?;
    let root_ref = bom.metadata.as_ref().and_then(|m| m.component.as_ref()?.bom_ref.clone());
    let components = bom.components.map(|cs| cs.0.into_iter().map(|c| CycloneDXComponent {
        bom_ref: c.bom_ref.clone(), name: c.name.to_string(),
        purl: c.purl.as_ref().map(|p| p.to_string()), body: ComponentBody::Vendored(c),
    }).collect());
    let dependencies = bom.dependencies.map(|d| d.0.into_iter().map(|x| Dependency {
        dependency_ref: x.dependency_ref, dependencies: x.dependencies,
    }).collect());
    Some(VendoredBom { root_ref, components, dependencies })
}

pub open spec fn file_views(files: Seq<Vec<u8>>) -> Seq<Seq<u8>> {
    files.map_values(|f: Vec<u8>| f@)
}

/// Every file is a document that the parser accepts.
pub open spec fn all_parse(files: Seq<Seq<u8>>) -> bool {
    forall|i: int| 0 <= i < files.len() ==> (#[trigger] vendored_bom_json(files[i])) is Some
}

/// `boms` are the documents read from `files`, one for each, in order.
pub open spec fn parsed_as(files: Seq<Seq<u8>>, boms: Seq<VendoredBom>) -> bool {
    &&& boms.len() == files.len()
    &&& forall|i: int| 0 <= i < files.len() ==> vendored_bom_json(files[i]) == Some(bom_summary(#[trigger] boms[i]))
}

impl CycloneDXComponents {
    /// Extend the components with those of the SBOMs read from a directory, given as the
    /// contents of its files.
    ///
    /// Fails, changing nothing, where a file is not a CycloneDX document in JSON. Otherwise the
    /// components are merged as `merge_vendored` merges them, and the dependency graphs that
    /// the documents declare are returned, their roots remapped to the owner.
    pub fn extend_from_directory(&mut self, files: Vec<Vec<u8>>, owner_path: &str) -> (r: Result<
        VendoredDependencies,
        VendoredBomError,
    >)
        ensures
            match r {
                Ok(deps) => all_parse(file_views(files@)) && exists|boms: Seq<VendoredBom>|
                    #[trigger] parsed_as(file_views(files@), boms)
                        && merged_components(old(self).0@, boms, final(self).0@)
                        && deps_view(deps.0@) == vendored_deps(boms, bom_ref_of(owner_path@)),
                Err(e) => e == VendoredBomError::Unparsable && !all_parse(file_views(files@))
                    && final(self).0@ == old(self).0@,
            },
    {
        let ghost fv = file_views(files@);
        let mut boms: Vec<VendoredBom> = Vec::new();
        let mut i: usize = 0;
        while i < files.len()
            invariant
                i <= files@.len(),
                fv == file_views(files@),
                boms@.len() == i,
                forall|j: int| 0 <= j < i ==> vendored_bom_json(fv[j]) == Some(bom_summary(#[trigger] boms@[j])),
            decreases files@.len() - i,
        {
            match parse_vendored_bom(files[i].as_slice()) {
                Some(b) => {
                    boms.push(b);
                },
                None => {
                    assert(vendored_bom_json(fv[i as int]) is None);
                    return Err(VendoredBomError::Unparsable);
                },
            }
            i = i + 1;
        }
        let ghost bs = boms@;
        assert(parsed_as(fv, bs));
        assert forall|j: int| 0 <= j < fv.len() implies (#[trigger] vendored_bom_json(fv[j])) is Some by {
            assert(vendored_bom_json(fv[j]) == Some(bom_summary(bs[j])));
        }
        let deps = self.merge_vendored(boms, owner_path);
        Ok(deps)
    }

    /// Extend the components with those of vendored SBOMs.
    ///
    /// Components are merged by key, the first one of a key kept, and held in key order.
    /// Returns the `dependencies` graphs declared by those BOMs, so the (language-level)
    /// edges they carry can be preserved in the aggregate SBOM.
    ///
    /// Each vendored BOM's root describes the same artifact as the owning Nix derivation,
    /// but is never itself emitted as a component. Its bom-ref is therefore remapped to the
    /// owning derivation's bom-ref.
    pub fn merge_vendored(&mut self, boms: Vec<VendoredBom>, owner_path: &str) -> (r: VendoredDependencies)
        ensures
            merged_components(old(self).0@, boms@, final(self).0@),
            deps_view(r.0@) == vendored_deps(boms@, bom_ref_of(owner_path@)),
    {
        let target_ref = bom_ref(owner_path);
        let ghost bs = boms@;
        let ghost s0 = self.0@;
        let mut all: Vec<CycloneDXComponent> = Vec::new();
        all.append(&mut self.0);
        let mut deps: Vec<Dependency> = Vec::new();
        let ghost mut k: int = 0;
        assert(bs.take(0) =~= Seq::<VendoredBom>::empty());
        assert(all@ =~= s0 + vendored_components(bs.take(0)));
        for bom in it: boms
            invariant
                it.seq() == bs,
                k == it.index(),
                0 <= k <= bs.len(),
                all@ == s0 + vendored_components(bs.take(k)),
                deps_view(deps@) == vendored_deps(bs.take(k), target_ref@),
        {
            let ghost bv = bom;
            assert(bv == bs[k]);
            assert(bs.take(k + 1).drop_last() =~= bs.take(k));
            assert(bs.take(k + 1).last() == bv);
            let VendoredBom { root_ref, components, dependencies } = bom;
            match components {
                Some(mut cs) => {
                    all.append(&mut cs);
                },
                None => {},
            }
            assert(all@ =~= s0 + vendored_components(bs.take(k + 1)));
            let ghost d0 = deps_view(deps@);
            match dependencies {
                Some(ds) => {
                    let ghost dsv = ds@;
                    let ghost f = remapper(opt_view(root_ref), target_ref@);
                    let ghost mut j: int = 0;
                    for d in jt: ds
                        invariant
                            jt.seq() == dsv,
                            j == jt.index(),
                            0 <= j <= dsv.len(),
                            f == remapper(opt_view(root_ref), target_ref@),
                            deps_view(deps@) == d0 + deps_view(dsv.take(j)).map_values(f),
                    {
                        assert(d == dsv[j]);
                        let ghost before = deps_view(deps@);
                        let e = remap_dependency(d, &root_ref, &target_ref);
                        deps.push(e);
                        assert(deps_view(deps@) =~= before.push(dep_view(e)));
                        assert(deps_view(dsv.take(j + 1)) =~= deps_view(dsv.take(j)).push(dep_view(dsv[j])));
                        assert(deps_view(dsv.take(j + 1)).map_values(f) =~= deps_view(dsv.take(j)).map_values(f).push(f(dep_view(dsv[j]))));
                        assert(deps_view(deps@) =~= d0 + deps_view(dsv.take(j + 1)).map_values(f));
                        proof {
                            j = j + 1;
                        }
                    }
                    assert(dsv.take(j) =~= dsv);
                },
                None => {
                    assert(deps_view(bom_dependencies(bv)) =~= Seq::<(Seq<char>, Seq<Seq<char>>)>::empty());
                    assert(deps_view(deps@) =~= d0 + deps_view(bom_dependencies(bv)).map_values(
                        remapper(opt_view(root_ref), target_ref@)));
                },
            }
            proof {
                k = k + 1;
            }
        }
        assert(bs.take(k) =~= bs);
        self.0 = merge_by_key(all);
        VendoredDependencies(deps)
    }
}

/// Some component of `cs` has deduplication key `x`.
pub open spec fn has_dedup_key(cs: Seq<CycloneDXComponent>, x: Seq<char>) -> bool {
    exists|i: int| 0 <= i < cs.len() && dedup_key(#[trigger] cs[i]) == x
}

/// The components of `cs` whose deduplication key no earlier component has, in order.
pub open spec fn deduplicated(cs: Seq<CycloneDXComponent>) -> Seq<CycloneDXComponent>
    decreases cs.len(),
{
    if cs.len() == 0 {
        Seq::empty()
    } else if has_dedup_key(cs.drop_last(), dedup_key(cs.last())) {
        deduplicated(cs.drop_last())
    } else {
        deduplicated(cs.drop_last()).push(cs.last())
    }
}

/// The deduplication key of a component.
pub fn dedup_key_of(c: &CycloneDXComponent) -> (r: String)
    ensures
        r@ == dedup_key(*c),
{
    match &c.purl {
        Some(p) => p.clone(),
        None => key_of(c),
    }
}

impl CycloneDXComponents {
    /// Deduplicate components.
    ///
    /// Remove entries with duplicate PURLs, falling back to bom-refs, falling back to the name of
    /// the component; the first entry of a key stays, in its place.
    pub fn deduplicate(&mut self)
        ensures
            final(self).0@ == deduplicated(old(self).0@),
    {
        let ghost cs = self.0@;
        let mut all: Vec<CycloneDXComponent> = Vec::new();
        all.append(&mut self.0);
        let mut seen = StrSet::new();
        let mut out: Vec<CycloneDXComponent> = Vec::new();
        let ghost mut n: int = 0;
        assert(cs.take(0) =~= Seq::<CycloneDXComponent>::empty());
        for c in it: all
            invariant
                it.seq() == cs,
                n == it.index(),
                0 <= n <= cs.len(),
                seen.wf(),
                forall|x: Seq<char>| #[trigger] seen.has(x) <==> has_dedup_key(cs.take(n), x),
                out@ == deduplicated(cs.take(n)),
        {
            let ghost p = cs.take(n);
            let ghost q = cs.take(n + 1);
            assert(c == cs[n]);
            assert(q.drop_last() =~= p);
            assert(q.last() == c);
            let k = dedup_key_of(&c);
            let ghost kv = k@;
            let fresh = seen.insert(k);
            if fresh {
                out.push(c);
            }
            proof {
                assert forall|x: Seq<char>| #[trigger] seen.has(x) <==> has_dedup_key(q, x) by {
                    if has_dedup_key(q, x) {
                        let j = choose|j: int| 0 <= j < q.len() && dedup_key(#[trigger] q[j]) == x;
                        if j < n {
                            assert(p[j] == q[j]);
                        }
                    }
                    if has_dedup_key(p, x) {
                        let j = choose|j: int| 0 <= j < p.len() && dedup_key(#[trigger] p[j]) == x;
                        assert(p[j] == q[j]);
                    }
                    if x == kv {
                        assert(q[n] == c);
                    }
                }
                n = n + 1;
            }
        }
        assert(cs.take(n) =~= cs);
        self.0 = out;
    }
}

/// Deduplication keeps each key of its input once: no two components left share a key, and
/// every key of the input is left.
pub proof fn lemma_deduplicated_keys(cs: Seq<CycloneDXComponent>)
    ensures
        forall|i: int, j: int| 0 <= i < j < deduplicated(cs).len()
            ==> dedup_key(#[trigger] deduplicated(cs)[i]) != dedup_key(#[trigger] deduplicated(cs)[j]),
        forall|x: Seq<char>| #[trigger] has_dedup_key(deduplicated(cs), x) <==> has_dedup_key(cs, x),
    decreases cs.len(),
{
    if cs.len() > 0 {
        let p = cs.drop_last();
        let c = cs.last();
        lemma_deduplicated_keys(p);
        let dp = deduplicated(p);
        assert forall|x: Seq<char>| #[trigger] has_dedup_key(cs, x) <==> (has_dedup_key(p, x) || x == dedup_key(c)) by {
            if has_dedup_key(cs, x) {
                let j = choose|j: int| 0 <= j < cs.len() && dedup_key(#[trigger] cs[j]) == x;
                if j < p.len() {
                    assert(p[j] == cs[j]);
                }
            }
            if has_dedup_key(p, x) {
                let j = choose|j: int| 0 <= j < p.len() && dedup_key(#[trigger] p[j]) == x;
                assert(p[j] == cs[j]);
            }
            if x == dedup_key(c) {
                assert(cs[cs.len() - 1] == c);
            }
        }
        if !has_dedup_key(p, dedup_key(c)) {
            let d = dp.push(c);
            assert(deduplicated(cs) == d);
            assert forall|x: Seq<char>| #[trigger] has_dedup_key(d, x) <==> (has_dedup_key(dp, x) || x == dedup_key(c)) by {
                if has_dedup_key(d, x) {
                    let j = choose|j: int| 0 <= j < d.len() && dedup_key(#[trigger] d[j]) == x;
                    if j < dp.len() {
                        assert(dp[j] == d[j]);
                    }
                }
                if has_dedup_key(dp, x) {
                    let j = choose|j: int| 0 <= j < dp.len() && dedup_key(#[trigger] dp[j]) == x;
                    assert(dp[j] == d[j]);
                }
                if x == dedup_key(c) {
                    assert(d[dp.len() as int] == c);
                }
            }
            assert forall|i: int, j: int| 0 <= i < j < d.len() implies dedup_key(#[trigger] d[i]) != dedup_key(#[trigger] d[j]) by {
                if j == dp.len() {
                    assert(d[i] == dp[i]);
                    if dedup_key(dp[i]) == dedup_key(c) {
                        assert(has_dedup_key(dp, dedup_key(c)));
                    }
                } else {
                    assert(d[i] == dp[i]);
                    assert(d[j] == dp[j]);
                }
            }
        }
    }
}

/// Remapping replaces the root of a vendored SBOM everywhere in an entry: where the root differs
/// from the owner, neither the entry's reference nor any of its dependencies names the root
/// afterwards, and every other reference stays as it was, in its place.
pub proof fn lemma_remap_replaces_root(d: (Seq<char>, Seq<Seq<char>>), root: Seq<char>, owner: Seq<char>)
    requires
        root != owner,
    ensures
        remap_dep(d, Some(root), owner).0 == if d.0 == root { owner } else { d.0 },
        remap_dep(d, Some(root), owner).1.len() == d.1.len(),
        !remap_dep(d, Some(root), owner).1.contains(root),
        forall|i: int| 0 <= i < d.1.len() && d.1[i] != root ==> #[trigger] remap_dep(d, Some(root), owner).1[i] == d.1[i],
{
    let m = remap_dep(d, Some(root), owner).1;
    if m.contains(root) {
        let i = choose|i: int| 0 <= i < m.len() && m[i] == root;
        assert(m[i] == remap_ref(d.1[i], Some(root), owner));
    }
}

/// The dependency graph of one vendored SBOM no longer names its root where the root differs
/// from the owner: the root's entries and edges belong to the owner instead.
pub proof fn lemma_vendored_root_replaced(bom: VendoredBom, owner: Seq<char>)
    requires
        bom.root_ref is Some,
        bom.root_ref->0@ != owner,
    ensures
        ({
            let root = bom.root_ref->0@;
            let deps = vendored_deps(seq![bom], owner);
            &&& deps.len() == bom_dependencies(bom).len()
            &&& forall|i: int| 0 <= i < deps.len() ==> (#[trigger] deps[i]).0 != root && !deps[i].1.contains(root)
        }),
{
    let root = bom.root_ref->0@;
    let deps = vendored_deps(seq![bom], owner);
    let f = remapper(opt_view(bom.root_ref), owner);
    assert(seq![bom].drop_last() =~= Seq::<VendoredBom>::empty());
    assert(seq![bom].last() == bom);
    assert(vendored_deps(Seq::<VendoredBom>::empty(), owner) =~= Seq::empty());
    assert(deps == vendored_deps(Seq::<VendoredBom>::empty(), owner) + deps_view(bom_dependencies(bom)).map_values(f));
    assert(deps =~= deps_view(bom_dependencies(bom)).map_values(f));
    assert forall|i: int| 0 <= i < deps.len() implies (#[trigger] deps[i]).0 != root && !deps[i].1.contains(root) by {
        let e = deps_view(bom_dependencies(bom))[i];
        assert(deps[i] == remap_dep(e, Some(root), owner));
        lemma_remap_replaces_root(e, root, owner);
    }
}

/// Deduplicating twice is deduplicating once.
pub proof fn lemma_deduplicated_idempotent(cs: Seq<CycloneDXComponent>)
    ensures
        deduplicated(deduplicated(cs)) == deduplicated(cs),
{
    lemma_deduplicated_keys(cs);
    lemma_no_duplicates_unchanged(deduplicated(cs));
}

/// Where no two components share a deduplication key, deduplication changes nothing.
pub proof fn lemma_no_duplicates_unchanged(cs: Seq<CycloneDXComponent>)
    requires
        forall|i: int, j: int| 0 <= i < j < cs.len() ==> dedup_key(#[trigger] cs[i]) != dedup_key(#[trigger] cs[j]),
    ensures
        deduplicated(cs) == cs,
    decreases cs.len(),
{
    if cs.len() > 0 {
        let p = cs.drop_last();
        assert forall|i: int, j: int| 0 <= i < j < p.len() implies dedup_key(#[trigger] p[i]) != dedup_key(#[trigger] p[j]) by {
            assert(p[i] == cs[i] && p[j] == cs[j]);
        }
        lemma_no_duplicates_unchanged(p);
        if has_dedup_key(p, dedup_key(cs.last())) {
            let j = choose|j: int| 0 <= j < p.len() && dedup_key(#[trigger] p[j]) == dedup_key(cs.last());
            assert(p[j] == cs[j]);
            assert(dedup_key(cs[j]) != dedup_key(cs[cs.len() - 1]));
        }
        assert(p.push(cs.last()) =~= cs);
    }
}

} // verus!
