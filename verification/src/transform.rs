//! Which derivations become components, and how the document is put together.
use vstd::prelude::*;

use crate::bom::CycloneDXBom;
use crate::buildtime_input::BuildtimeInput;
use crate::component::sources_valid;
use crate::cyclonedx::{CycloneDXComponents, VendoredDependencies};
use crate::dependencies::{assembled_graph, dependency_refs, lemma_assembled_graph_unique, present_refs, CycloneDXDependencies};
use crate::bom::{serial_number_of, tool_component};
use crate::component::component_of;
use crate::cyclonedx::{deduplicated, deps_view, CycloneDXComponent, Dependency};
use crate::derivation::{bare_derivation, store_path_name_version, Derivation, DerivationView};
use crate::runtime_input::RuntimeInput;
use crate::strmap::StrSet;
use crate::text::{key_equal, str_views};

verus! {

/// A set of regular expressions as the `regex` crate builds it.
#[verifier::external_type_specification]
#[verifier::external_body]
pub struct ExRegexSet(regex::RegexSet);

/// The error with which the `regex` crate refuses a pattern.
#[verifier::external_type_specification]
#[verifier::external_body]
pub struct ExRegexError(regex::Error);

/// Whether the `regex` crate builds a set from these patterns.
pub uninterp spec fn regex_set_builds(patterns: Seq<Seq<char>>) -> bool;

/// Whether some pattern of a set that the `regex` crate built matches the text.
pub uninterp spec fn regex_set_matches(patterns: Seq<Seq<char>>, text: Seq<char>) -> bool;

/// Calls `regex::RegexSet::new`. Claimed: it succeeds exactly where `regex_set_builds` holds,
/// and on no patterns at all (the empty set).
#[verifier::external_body]
fn regex_set_new(patterns: &Vec<String>) -> (r: Result<regex::RegexSet, regex::Error>)
    ensures
        (r is Ok) <==> regex_set_builds(str_views(patterns@)),
        patterns@.len() == 0 ==> r is Ok,
{
    regex::RegexSet::new(patterns)
}

/// Why the transformation fails.
#[derive(Clone, Copy, Debug, PartialEq, Eq, Structural)]
pub enum TransformError {
    /// The build-time input does not hold the target derivation.
    MissingTarget,
    /// The exclude patterns do not form a regex set.
    InvalidExcludePattern,
}

/// The exclude patterns, built into one set.
pub struct PathFilter {
    patterns: Vec<String>,
    set: regex::RegexSet,
}

impl PathFilter {
    /// The patterns that the set was built from.
    pub closed spec fn patterns(self) -> Seq<Seq<char>> {
        str_views(self.patterns@)
    }

    /// Builds the set of exclude patterns.
    pub fn new(patterns: Vec<String>) -> (r: Result<PathFilter, TransformError>)
        ensures
            match r {
                Ok(f) => regex_set_builds(str_views(patterns@)) && f.patterns() == str_views(patterns@),
                Err(e) => !regex_set_builds(str_views(patterns@)) && e == TransformError::InvalidExcludePattern,
            },
            patterns@.len() == 0 ==> r is Ok,
    {
        match regex_set_new(&patterns) {
            Ok(set) => Ok(PathFilter { patterns, set }),
            Err(_) => Err(TransformError::InvalidExcludePattern),
        }
    }

    /// Calls `regex::RegexSet::is_match` on the set built from `self.patterns()`. Claimed:
    /// the answer is `regex_set_matches` of those patterns and the text; no pattern matches
    /// nothing.
    #[verifier::external_body]
    pub(crate) fn is_match(&self, text: &str) -> (r: bool)
        ensures
            r == regex_set_matches(self.patterns(), text@),
            self.patterns().len() == 0 ==> !r,
    {
        self.set.is_match(text)
    }
}

pub open spec fn derivation_views(s: Seq<Derivation>) -> Seq<DerivationView> {
    s.map_values(|d: Derivation| d@)
}

/// What a store path alone tells of a derivation.
pub open spec fn store_derivation(p: Seq<char>) -> DerivationView {
    bare_derivation(p, store_path_name_version(p).0, store_path_name_version(p).1)
}

/// The derivations of the runtime closure, in the order of their paths, described by the
/// build-time input where it holds them.
pub open spec fn runtime_derivations(rt: RuntimeInput, bt: BuildtimeInput) -> Seq<DerivationView> {
    rt.paths.elems().map_values(|p: Seq<char>| if bt.0.has(p) { bt.0.value_of(p)@ } else { store_derivation(p) })
}

/// The key by which build-time derivations are told apart: the name, else the path.
pub open spec fn name_or_path(d: DerivationView) -> Seq<char> {
    match d.name {
        Some(n) => n,
        None => d.path,
    }
}

pub open spec fn has_name_or_path(s: Seq<DerivationView>, x: Seq<char>) -> bool {
    exists|i: int| 0 <= i < s.len() && name_or_path(#[trigger] s[i]) == x
}

/// The derivations of `s` whose key no earlier derivation has, in order.
pub open spec fn unique_by_name(s: Seq<DerivationView>) -> Seq<DerivationView>
    decreases s.len(),
{
    if s.len() == 0 {
        Seq::empty()
    } else if has_name_or_path(s.drop_last(), name_or_path(s.last())) {
        unique_by_name(s.drop_last())
    } else {
        unique_by_name(s.drop_last()).push(s.last())
    }
}

pub open spec fn outside_closure(rt: RuntimeInput) -> spec_fn(DerivationView) -> bool {
    |d: DerivationView| !rt.paths.has(d.path)
}

/// The build-time derivations that are not in the runtime closure, one for each key.
pub open spec fn buildtime_derivations(bt: BuildtimeInput, rt: RuntimeInput) -> Seq<DerivationView> {
    unique_by_name(derivation_views(bt.0.vals()).filter(outside_closure(rt)))
}

pub open spec fn is_doc_or_man(o: Option<Seq<char>>) -> bool {
    o == Some(seq!['d', 'o', 'c']) || o == Some(seq!['m', 'a', 'n'])
}

/// A derivation stays: it is no documentation or manual output, no exclude pattern matches
/// its path, and it has a version.
pub open spec fn kept_by(patterns: Seq<Seq<char>>) -> spec_fn(DerivationView) -> bool {
    |d: DerivationView| !is_doc_or_man(d.output_name) && !regex_set_matches(patterns, d.path) && d.version is Some
}

/// The derivations that become components.
pub open spec fn selected_derivations(
    include_buildtime_dependencies: bool,
    patterns: Seq<Seq<char>>,
    bt: BuildtimeInput,
    rt: RuntimeInput,
) -> Seq<DerivationView> {
    (runtime_derivations(rt, bt) + if include_buildtime_dependencies {
        buildtime_derivations(bt, rt)
    } else {
        Seq::empty()
    }).filter(kept_by(patterns))
}

/// The target derivation, from the build-time input.
pub fn find_target(buildtime_input: &BuildtimeInput, target_path: &str) -> (r: Result<Derivation, TransformError>)
    requires
        buildtime_input.wf(),
    ensures
        match r {
            Ok(d) => buildtime_input.0.has(target_path@) && d@ == buildtime_input.0.value_of(target_path@)@,
            Err(e) => !buildtime_input.0.has(target_path@) && e == TransformError::MissingTarget,
        },
{
    match buildtime_input.0.get(target_path) {
        Some(d) => Ok(d.duplicate()),
        None => Err(TransformError::MissingTarget),
    }
}

/// The derivations of the runtime closure, described by the build-time input where it holds them.
fn runtime_candidates(runtime_input: &RuntimeInput, buildtime_input: &BuildtimeInput) -> (r: Vec<Derivation>)
    requires
        runtime_input.wf(),
        buildtime_input.wf(),
    ensures
        derivation_views(r@) == runtime_derivations(*runtime_input, *buildtime_input),
{
    let mut r: Vec<Derivation> = Vec::new();
    let n = runtime_input.paths.len();
    let mut i: usize = 0;
    while i < n
        invariant
            runtime_input.wf(),
            buildtime_input.wf(),
            n == runtime_input.paths.elems().len(),
            i <= n,
            r@.len() == i,
            forall|j: int| 0 <= j < i ==> (#[trigger] r@[j])@ == runtime_derivations(*runtime_input, *buildtime_input)[j],
        decreases n - i,
    {
        let p = runtime_input.paths.get(i);
        let d = match buildtime_input.0.get(p.as_str()) {
            Some(d) => d.duplicate(),
            None => Derivation::from_store_path(p.as_str()),
        };
        r.push(d);
        i = i + 1;
    }
    assert(derivation_views(r@) =~= runtime_derivations(*runtime_input, *buildtime_input));
    r
}

/// The key of a derivation.
fn name_or_path_of(d: &Derivation) -> (r: String)
    ensures
        r@ == name_or_path(d@),
{
    match &d.name {
        Some(n) => n.clone(),
        None => d.path.clone(),
    }
}

/// The build-time derivations outside the runtime closure, one for each key.
fn buildtime_candidates(runtime_input: &RuntimeInput, buildtime_input: &BuildtimeInput) -> (r: Vec<Derivation>)
    requires
        runtime_input.wf(),
        buildtime_input.wf(),
    ensures
        derivation_views(r@) == buildtime_derivations(*buildtime_input, *runtime_input),
{
    let ghost all = derivation_views(buildtime_input.0.vals());
    let ghost pred = outside_closure(*runtime_input);
    let mut r: Vec<Derivation> = Vec::new();
    let mut seen = StrSet::new();
    let n = buildtime_input.0.len();
    let mut i: usize = 0;
    assert(all.take(0).filter(pred) =~= Seq::<DerivationView>::empty()) by {
        reveal(Seq::filter);
    }
    while i < n
        invariant
            runtime_input.wf(),
            buildtime_input.wf(),
            all == derivation_views(buildtime_input.0.vals()),
            pred == outside_closure(*runtime_input),
            n == all.len(),
            i <= n,
            seen.wf(),
            forall|x: Seq<char>| #[trigger] seen.has(x) <==> has_name_or_path(all.take(i as int).filter(pred), x),
            derivation_views(r@) == unique_by_name(all.take(i as int).filter(pred)),
        decreases n - i,
    {
        let d = buildtime_input.0.value_at(i);
        let ghost dv = d@;
        let ghost p = all.take(i as int).filter(pred);
        assert(all[i as int] == dv);
        assert(all.take(i + 1) =~= all.take(i as int).push(dv));
        proof {
            all.take(i as int).lemma_filter_push(dv, pred);
        }
        if !runtime_input.paths.contains(d.path.as_str()) {
            let ghost q = p.push(dv);
            assert(q.drop_last() =~= p);
            assert(q.last() == dv);
            let k = name_or_path_of(d);
            let ghost kv = k@;
            let fresh = seen.insert(k);
            if fresh {
                r.push(d.duplicate());
                assert(derivation_views(r@) =~= unique_by_name(p).push(dv));
            }
            assert forall|x: Seq<char>| #[trigger] seen.has(x) <==> has_name_or_path(q, x) by {
                if has_name_or_path(q, x) {
                    let j = choose|j: int| 0 <= j < q.len() && name_or_path(#[trigger] q[j]) == x;
                    if j < p.len() {
                        assert(p[j] == q[j]);
                    }
                }
                if has_name_or_path(p, x) {
                    let j = choose|j: int| 0 <= j < p.len() && name_or_path(#[trigger] p[j]) == x;
                    assert(p[j] == q[j]);
                }
                if x == kv {
                    assert(q[p.len() as int] == dv);
                }
            }
        }
        i = i + 1;
    }
    assert(all.take(n as int) =~= all);
    r
}

fn is_doc_or_man_output(o: &Option<String>) -> (r: bool)
    ensures
        r == is_doc_or_man(crate::text::opt_view(*o)),
{
    proof {
        reveal_strlit("doc");
        reveal_strlit("man");
    }
    assert("doc"@ =~= seq!['d', 'o', 'c']);
    assert("man"@ =~= seq!['m', 'a', 'n']);
    match o {
        Some(s) => key_equal(s.as_str(), "doc") || key_equal(s.as_str(), "man"),
        None => false,
    }
}

/// The derivations that become components: those of the runtime closure, then, if build-time
/// dependencies are included, the others of the build-time input (one for each name); leaving
/// out documentation and manual outputs, excluded paths, and derivations without a version.
pub fn select_derivations(
    include_buildtime_dependencies: bool,
    filter: &PathFilter,
    buildtime_input: &BuildtimeInput,
    runtime_input: &RuntimeInput,
) -> (r: Vec<Derivation>)
    requires
        runtime_input.wf(),
        buildtime_input.wf(),
    ensures
        derivation_views(r@) == selected_derivations(include_buildtime_dependencies, filter.patterns(), *buildtime_input, *runtime_input),
{
    let mut candidates = runtime_candidates(runtime_input, buildtime_input);
    if include_buildtime_dependencies {
        let mut more = buildtime_candidates(runtime_input, buildtime_input);
        candidates.append(&mut more);
    }
    let ghost all = derivation_views(candidates@);
    assert(all =~= runtime_derivations(*runtime_input, *buildtime_input) + if include_buildtime_dependencies {
        buildtime_derivations(*buildtime_input, *runtime_input)
    } else {
        Seq::<DerivationView>::empty()
    });
    let ghost pred = kept_by(filter.patterns());
    let ghost cs = candidates@;
    let mut r: Vec<Derivation> = Vec::new();
    let ghost mut n: int = 0;
    assert(all.take(0).filter(pred) =~= Seq::<DerivationView>::empty()) by {
        reveal(Seq::filter);
    }
    for d in it: candidates
        invariant
            it.seq() == cs,
            n == it.index(),
            0 <= n <= cs.len(),
            all == derivation_views(cs),
            pred == kept_by(filter.patterns()),
            derivation_views(r@) == all.take(n).filter(pred),
    {
        assert(d@ == all[n]);
        assert(all.take(n + 1) =~= all.take(n).push(d@));
        proof {
            all.take(n).lemma_filter_push(d@, pred);
        }
        let keep = !is_doc_or_man_output(&d.output_name) && !filter.is_match(d.path.as_str()) && d.version.is_some();
        assert(keep == pred(d@));
        if keep {
            let ghost before = derivation_views(r@);
            let ghost dv = d@;
            r.push(d);
            assert(derivation_views(r@) =~= before.push(dv));
        }
        proof {
            n = n + 1;
        }
    }
    assert(all.take(n) =~= all);
    r
}

pub open spec fn carries_sbom() -> spec_fn(DerivationView) -> bool {
    |d: DerivationView| d.vendored_sbom is Some
}

/// The directory of a derivation's vendored SBOMs, with the store path that owns them.
pub open spec fn sbom_source(d: DerivationView) -> (Seq<char>, Seq<char>) {
    (d.vendored_sbom->0, d.path)
}

/// Where vendored SBOMs are read from: for each derivation of the build-time input that carries
/// them, in the order of the store paths, the directory and the owning store path.
pub open spec fn vendored_sbom_sources(bt: BuildtimeInput) -> Seq<(Seq<char>, Seq<char>)> {
    derivation_views(bt.0.vals()).filter(carries_sbom()).map_values(|d: DerivationView| sbom_source(d))
}

pub open spec fn pair_views(v: Seq<(String, String)>) -> Seq<(Seq<char>, Seq<char>)> {
    v.map_values(|p: (String, String)| (p.0@, p.1@))
}

/// The directories of vendored SBOMs to read, each with the store path of the derivation that
/// owns them, in the order of the build-time input's store paths.
pub fn vendored_sboms(buildtime_input: &BuildtimeInput) -> (r: Vec<(String, String)>)
    requires
        buildtime_input.wf(),
    ensures
        pair_views(r@) == vendored_sbom_sources(*buildtime_input),
{
    let ghost all = derivation_views(buildtime_input.0.vals());
    let ghost pred = carries_sbom();
    let ghost f = |d: DerivationView| sbom_source(d);
    let mut r: Vec<(String, String)> = Vec::new();
    let n = buildtime_input.0.len();
    let mut i: usize = 0;
    assert(all.take(0).filter(pred) =~= Seq::<DerivationView>::empty()) by {
        reveal(Seq::filter);
    }
    while i < n
        invariant
            buildtime_input.wf(),
            all == derivation_views(buildtime_input.0.vals()),
            pred == carries_sbom(),
            f == (|d: DerivationView| sbom_source(d)),
            n == all.len(),
            i <= n,
            pair_views(r@) == all.take(i as int).filter(pred).map_values(f),
        decreases n - i,
    {
        let d = buildtime_input.0.value_at(i);
        assert(all[i as int] == d@);
        assert(all.take(i + 1) =~= all.take(i as int).push(d@));
        proof {
            all.take(i as int).lemma_filter_push(d@, pred);
        }
        match &d.vendored_sbom {
            Some(dir) => {
                let ghost before = pair_views(r@);
                r.push((dir.clone(), d.path.clone()));
                assert(pair_views(r@) =~= before.push(sbom_source(d@)));
                assert(all.take(i + 1).filter(pred).map_values(f) =~= all.take(i as int).filter(pred).map_values(f).push(f(d@)));
            },
            None => {},
        }
        i = i + 1;
    }
    assert(all.take(n as int) =~= all);
    r
}

/// `r` is the document put together from these inputs: the components without duplicates;
/// the target as the described component and this tool as the only tool; the serial number
/// derived from the output path; and the dependency graph over the references of the
/// components and the target. The document carries no timestamp.
pub open spec fn finished(
    r: CycloneDXBom,
    target: Derivation,
    components: Seq<CycloneDXComponent>,
    vendored: Seq<Dependency>,
    rt: RuntimeInput,
    bt: BuildtimeInput,
    include_buildtime_dependencies: bool,
    output: Seq<u8>,
) -> bool {
    &&& r.0.components@ == deduplicated(components)
    &&& r.0.metadata.component@ == component_of(target@)
    &&& r.0.serial_number@ == serial_number_of(output)
    &&& r.0.metadata.tools@.len() == 1
    &&& r.0.metadata.tools@[0]@ == tool_component()
    &&& r.0.dependencies matches Some(d) && assembled_graph(
        d@, present_refs(deduplicated(components), target), rt, bt, include_buildtime_dependencies, vendored)
}

/// Puts the document together once the components are known: drops duplicate components,
/// assembles the dependency graph, and derives the serial number from the output path.
pub fn finish(
    target_derivation: Derivation,
    components: CycloneDXComponents,
    vendored_dependencies: VendoredDependencies,
    runtime_input: &RuntimeInput,
    buildtime_input: &BuildtimeInput,
    include_buildtime_dependencies: bool,
    output: &[u8],
) -> (r: CycloneDXBom)
    requires
        runtime_input.wf(),
        buildtime_input.wf(),
        sources_valid(target_derivation@),
    ensures
        finished(
            r, target_derivation, components.0@, vendored_dependencies.0@, *runtime_input, *buildtime_input,
            include_buildtime_dependencies, output@),
{
    let ghost vd = vendored_dependencies.0@;
    let mut components = components;
    components.deduplicate();
    let dependencies = CycloneDXDependencies::assemble(
        &components,
        &target_derivation,
        runtime_input,
        buildtime_input,
        include_buildtime_dependencies,
        vendored_dependencies,
    );
    proof {
        let present = present_refs(components.0@, target_derivation);
        let target_ref = crate::text::bom_ref_of(target_derivation.path@);
        assert(present.contains(target_ref));
        assert(dependency_refs(dependencies.0@).contains(target_ref));
    }
    CycloneDXBom::build(target_derivation, components, dependencies, output)
}

/// Every derivation that becomes a component has a version, is no documentation or manual
/// output, and matches no exclude pattern; without build-time dependencies, each is one of the
/// runtime closure.
pub proof fn lemma_selected_derivations(
    include_buildtime_dependencies: bool,
    patterns: Seq<Seq<char>>,
    bt: BuildtimeInput,
    rt: RuntimeInput,
)
    ensures
        forall|i: int| 0 <= i < selected_derivations(include_buildtime_dependencies, patterns, bt, rt).len() ==> {
            let d = #[trigger] selected_derivations(include_buildtime_dependencies, patterns, bt, rt)[i];
            &&& d.version is Some
            &&& !is_doc_or_man(d.output_name)
            &&& !regex_set_matches(patterns, d.path)
            &&& !include_buildtime_dependencies ==> runtime_derivations(rt, bt).contains(d)
        },
{
    let all = runtime_derivations(rt, bt) + if include_buildtime_dependencies {
        buildtime_derivations(bt, rt)
    } else {
        Seq::empty()
    };
    let s = selected_derivations(include_buildtime_dependencies, patterns, bt, rt);
    assert forall|i: int| 0 <= i < s.len() implies {
        let d = #[trigger] s[i];
        &&& d.version is Some
        &&& !is_doc_or_man(d.output_name)
        &&& !regex_set_matches(patterns, d.path)
        &&& !include_buildtime_dependencies ==> runtime_derivations(rt, bt).contains(d)
    } by {
        all.lemma_filter_pred(kept_by(patterns), i);
        all.lemma_filter_contains_rev(kept_by(patterns), s[i]);
        if !include_buildtime_dependencies {
            assert(all =~= runtime_derivations(rt, bt));
            assert(s.contains(s[i]));
        }
    }
}

/// The build-time derivations outside the runtime closure come one for each name (or, without
/// a name, each path): no two share it, and each name of the input is kept.
pub proof fn lemma_unique_by_name(s: Seq<DerivationView>)
    ensures
        forall|i: int, j: int| 0 <= i < j < unique_by_name(s).len()
            ==> name_or_path(#[trigger] unique_by_name(s)[i]) != name_or_path(#[trigger] unique_by_name(s)[j]),
        forall|x: Seq<char>| #[trigger] has_name_or_path(unique_by_name(s), x) <==> has_name_or_path(s, x),
    decreases s.len(),
{
    if s.len() > 0 {
        let p = s.drop_last();
        let c = s.last();
        lemma_unique_by_name(p);
        let up = unique_by_name(p);
        assert forall|x: Seq<char>| #[trigger] has_name_or_path(s, x) <==> (has_name_or_path(p, x) || x == name_or_path(c)) by {
            if has_name_or_path(s, x) {
                let j = choose|j: int| 0 <= j < s.len() && name_or_path(#[trigger] s[j]) == x;
                if j < p.len() {
                    assert(p[j] == s[j]);
                }
            }
            if has_name_or_path(p, x) {
                let j = choose|j: int| 0 <= j < p.len() && name_or_path(#[trigger] p[j]) == x;
                assert(p[j] == s[j]);
            }
            if x == name_or_path(c) {
                assert(s[s.len() - 1] == c);
            }
        }
        if !has_name_or_path(p, name_or_path(c)) {
            let d = up.push(c);
            assert(unique_by_name(s) == d);
            assert forall|x: Seq<char>| #[trigger] has_name_or_path(d, x) <==> (has_name_or_path(up, x) || x == name_or_path(c)) by {
                if has_name_or_path(d, x) {
                    let j = choose|j: int| 0 <= j < d.len() && name_or_path(#[trigger] d[j]) == x;
                    if j < up.len() {
                        assert(up[j] == d[j]);
                    }
                }
                if has_name_or_path(up, x) {
                    let j = choose|j: int| 0 <= j < up.len() && name_or_path(#[trigger] up[j]) == x;
                    assert(up[j] == d[j]);
                }
                if x == name_or_path(c) {
                    assert(d[up.len() as int] == c);
                }
            }
            assert forall|i: int, j: int| 0 <= i < j < d.len() implies name_or_path(#[trigger] d[i]) != name_or_path(#[trigger] d[j]) by {
                if j == up.len() {
                    assert(d[i] == up[i]);
                    if name_or_path(up[i]) == name_or_path(c) {
                        assert(has_name_or_path(up, name_or_path(c)));
                    }
                } else {
                    assert(d[i] == up[i]);
                    assert(d[j] == up[j]);
                }
            }
        }
    }
}

/// The document is reproducible: put together twice from the same inputs, it has the same
/// serial number, the same components in the same order, the same described component and
/// tools, and the same dependency graph.
pub proof fn lemma_finish_reproducible(
    r1: CycloneDXBom,
    r2: CycloneDXBom,
    target: Derivation,
    components: Seq<CycloneDXComponent>,
    vendored: Seq<Dependency>,
    rt: RuntimeInput,
    bt: BuildtimeInput,
    include_buildtime_dependencies: bool,
    output: Seq<u8>,
)
    requires
        finished(r1, target, components, vendored, rt, bt, include_buildtime_dependencies, output),
        finished(r2, target, components, vendored, rt, bt, include_buildtime_dependencies, output),
    ensures
        r1.0.serial_number@ == r2.0.serial_number@,
        r1.0.components@ == r2.0.components@,
        r1.0.metadata.component@ == r2.0.metadata.component@,
        r1.0.metadata.tools@.len() == r2.0.metadata.tools@.len(),
        forall|i: int| 0 <= i < r1.0.metadata.tools@.len() ==> (#[trigger] r1.0.metadata.tools@[i])@ == r2.0.metadata.tools@[i]@,
        r1.0.dependencies matches Some(d1) && (r2.0.dependencies matches Some(d2) && deps_view(d1@) == deps_view(d2@)),
{
    let d1 = r1.0.dependencies->0;
    let d2 = r2.0.dependencies->0;
    lemma_assembled_graph_unique(
        d1@, d2@, present_refs(deduplicated(components), target), rt, bt, include_buildtime_dependencies, vendored);
}

/// The selection filter: of the candidates (the runtime closure, then the build-time
/// derivations where they are included), exactly those are selected that have a version, whose
/// output is neither `doc` nor `man`, and whose path no exclude pattern matches. Any other
/// output, such as `dev` or `bin`, stays.
pub proof fn lemma_selection_filter(
    include_buildtime_dependencies: bool,
    patterns: Seq<Seq<char>>,
    bt: BuildtimeInput,
    rt: RuntimeInput,
    d: DerivationView,
)
    ensures
        selected_derivations(include_buildtime_dependencies, patterns, bt, rt).contains(d) <==> {
            &&& (runtime_derivations(rt, bt) + if include_buildtime_dependencies {
                buildtime_derivations(bt, rt)
            } else {
                Seq::empty()
            }).contains(d)
            &&& d.version is Some
            &&& d.output_name != Some(seq!['d', 'o', 'c'])
            &&& d.output_name != Some(seq!['m', 'a', 'n'])
            &&& !regex_set_matches(patterns, d.path)
        },
{
    let all = runtime_derivations(rt, bt) + if include_buildtime_dependencies {
        buildtime_derivations(bt, rt)
    } else {
        Seq::empty()
    };
    let pred = kept_by(patterns);
    let sel = all.filter(pred);
    assert(sel == selected_derivations(include_buildtime_dependencies, patterns, bt, rt));
    if sel.contains(d) {
        let i = choose|i: int| 0 <= i < sel.len() && sel[i] == d;
        all.lemma_filter_pred(pred, i);
        all.lemma_filter_contains_rev(pred, d);
    }
    if all.contains(d) && pred(d) {
        let i = choose|i: int| 0 <= i < all.len() && all[i] == d;
        all.lemma_filter_contains(pred, i);
    }
}

/// Build-time derivations are told apart by their name, or by their path where they have no
/// name: a derivation whose name (or path) no earlier one has is kept, whatever else, such as a
/// `pname`, it shares with them.
pub proof fn lemma_unique_by_name_keeps(s: Seq<DerivationView>, i: int)
    requires
        0 <= i < s.len(),
        forall|j: int| 0 <= j < i ==> (match (#[trigger] s[j]).name {
            Some(n) => n,
            None => s[j].path,
        }) != (match s[i].name {
            Some(n) => n,
            None => s[i].path,
        }),
    ensures
        unique_by_name(s).contains(s[i]),
    decreases s.len(),
{
    let p = s.drop_last();
    if i == s.len() - 1 {
        if has_name_or_path(p, name_or_path(s.last())) {
            let j = choose|j: int| 0 <= j < p.len() && name_or_path(#[trigger] p[j]) == name_or_path(s.last());
            assert(p[j] == s[j]);
        }
        assert(unique_by_name(s) == unique_by_name(p).push(s.last()));
        assert(unique_by_name(s)[unique_by_name(p).len() as int] == s[i]);
    } else {
        assert forall|j: int| 0 <= j < i implies (match (#[trigger] p[j]).name {
            Some(n) => n,
            None => p[j].path,
        }) != (match p[i].name {
            Some(n) => n,
            None => p[i].path,
        }) by {
            assert(p[j] == s[j]);
        }
        assert(p[i] == s[i]);
        lemma_unique_by_name_keeps(p, i);
        let u = unique_by_name(p);
        let k = choose|k: int| 0 <= k < u.len() && u[k] == s[i];
        if !has_name_or_path(p, name_or_path(s.last())) {
            assert(unique_by_name(s) == u.push(s.last()));
            assert(unique_by_name(s)[k] == s[i]);
        }
    }
}

} // verus!
