//! The dependency graph of the document.
use vstd::prelude::*;

use crate::buildtime_input::BuildtimeInput;
use crate::cyclonedx::{
    dep_view, deps_view, has_component_key, CycloneDXComponent, CycloneDXComponents, Dependency,
    VendoredDependencies,
};
use crate::derivation::Derivation;
use crate::runtime_input::RuntimeInput;
use crate::strmap::{key_index, lemma_sorted_index, StrMap, StrSet};
use crate::text::{bom_ref, bom_ref_of, key_equal, lemma_sorted_distinct, lemma_sorted_unique, str_views, strictly_sorted};

verus! {

/// A graph held as a map from each node to the set of its successors.
pub open spec fn graph_wf(g: StrMap<StrSet>) -> bool {
    &&& g.wf()
    &&& forall|i: int| 0 <= i < g.vals().len() ==> (#[trigger] g.vals()[i]).wf()
}

/// Some link of `links` goes from `r` to `d`.
pub open spec fn has_link(links: Seq<(Seq<char>, Seq<Seq<char>>)>, r: Seq<char>, d: Seq<char>) -> bool {
    exists|i: int| 0 <= i < links.len() && (#[trigger] links[i]).0 == r && links[i].1.contains(d)
}

/// Some link of `links` starts at `r`.
pub open spec fn has_source(links: Seq<(Seq<char>, Seq<Seq<char>>)>, r: Seq<char>) -> bool {
    exists|i: int| 0 <= i < links.len() && (#[trigger] links[i]).0 == r
}

/// The references of a list of store paths.
pub open spec fn bom_refs_of(paths: Seq<Seq<char>>) -> Seq<Seq<char>> {
    paths.map_values(|p: Seq<char>| bom_ref_of(p))
}

/// The runtime reference graph, with store paths written as references.
pub open spec fn runtime_links(rt: RuntimeInput) -> Seq<(Seq<char>, Seq<Seq<char>>)> {
    Seq::new(
        rt.references.keys().len(),
        |i: int| (bom_ref_of(rt.references.keys()[i]), bom_refs_of(str_views(rt.references.vals()[i]@))),
    )
}

/// The build-time reference graph, with store paths written as references.
pub open spec fn build_links(bt: BuildtimeInput) -> Seq<(Seq<char>, Seq<Seq<char>>)> {
    Seq::new(
        bt.0.vals().len(),
        |i: int| (bom_ref_of(bt.0.vals()[i].path@), bom_refs_of(str_views(bt.0.vals()[i].build_references@))),
    )
}

/// The references that end up in the document: those of the components and of the target.
pub open spec fn present_refs(components: Seq<CycloneDXComponent>, target: Derivation) -> Set<Seq<char>> {
    Set::new(|x: Seq<char>| has_component_key(components, x) || x == bom_ref_of(target.path@))
}

/// Whether the document's graph has an edge from `r` to `d`.
pub open spec fn dependency_edge(
    present: Set<Seq<char>>,
    rt: RuntimeInput,
    bt: BuildtimeInput,
    include_buildtime_dependencies: bool,
    vendored: Seq<Dependency>,
    r: Seq<char>,
    d: Seq<char>,
) -> bool {
    &&& present.contains(r)
    &&& present.contains(d)
    &&& {
        ||| has_link(runtime_links(rt), r, d)
        ||| (include_buildtime_dependencies && d != r && has_link(build_links(bt), r, d))
        ||| has_link(deps_view(vendored), r, d)
    }
}

/// Adds the edges from one node, keeping only nodes of `present`.
fn link(
    graph: &mut StrMap<StrSet>,
    present: &StrSet,
    dependent: String,
    targets: &Vec<String>,
    skip_self: bool,
)
    requires
        graph_wf(*old(graph)),
        present.wf(),
        forall|r: Seq<char>| #[trigger] old(graph).has(r) ==> present.has(r),
    ensures
        graph_wf(*final(graph)),
        forall|r: Seq<char>| #[trigger] final(graph).has(r) ==> present.has(r),
        forall|r: Seq<char>| #[trigger] final(graph).has(r) <==> (old(graph).has(r) || (present.has(dependent@) && r == dependent@)),
        forall|r: Seq<char>| old(graph).has(r) && r != dependent@ ==> #[trigger] final(graph).value_of(r) == old(graph).value_of(r),
        present.has(dependent@) ==> forall|d: Seq<char>| #[trigger] final(graph).value_of(dependent@).has(d) <==> (
            (old(graph).has(dependent@) && old(graph).value_of(dependent@).has(d))
            || (present.has(d) && !(skip_self && d == dependent@) && str_views(targets@).contains(d))),
{
    if !present.contains(dependent.as_str()) {
        return;
    }
    let ghost g0 = *graph;
    let ghost dv = dependent@;
    let idx: usize = match graph.index_of(dependent.as_str()) {
        Some(i) => i,
        None => {
            let p = graph.insert_absent(dependent.clone(), StrSet::new());
            proof {
                assert forall|r: Seq<char>| #[trigger] graph.has(r) <==> (g0.has(r) || r == dv) by {
                    assert(graph.to_map().dom().contains(r) == graph.has(r));
                    assert(g0.to_map().dom().contains(r) == g0.has(r));
                }
                assert forall|r: Seq<char>| g0.has(r) && r != dv implies #[trigger] graph.value_of(r) == g0.value_of(r) by {
                    assert(graph.to_map()[r] == graph.value_of(r));
                    assert(g0.to_map()[r] == g0.value_of(r));
                }
            }
            p
        },
    };
    let ghost g1 = *graph;
    assert(idx < g1.keys().len() && g1.keys()[idx as int] == dv && key_index(g1.keys(), dv) == idx);
    assert(forall|r: Seq<char>| #[trigger] g1.has(r) <==> (g0.has(r) || r == dv));
    assert(forall|r: Seq<char>| g0.has(r) && r != dv ==> #[trigger] g1.value_of(r) == g0.value_of(r));
    let mut set = graph.replace_at(idx, StrSet::new());
    let ghost set0 = set;
    let mut j: usize = 0;
    while j < targets.len()
        invariant
            j <= targets@.len(),
            dv == dependent@,
            set.wf(),
            present.wf(),
            forall|d: Seq<char>| #[trigger] set.has(d) <==> (set0.has(d) || (present.has(d) && !(skip_self && d == dv)
                && str_views(targets@).take(j as int).contains(d))),
        decreases targets@.len() - j,
    {
        let d = &targets[j];
        let ghost tv = str_views(targets@);
        let ghost prev = set;
        assert(d@ == tv[j as int]);
        let is_self = key_equal(d.as_str(), dependent.as_str());
        let keep = (!skip_self || !is_self) && present.contains(d.as_str());
        assert(keep == (!(skip_self && d@ == dv) && present.has(d@)));
        if keep {
            set.insert(d.clone());
        }
        assert(forall|x: Seq<char>| #[trigger] set.has(x) <==> (prev.has(x) || (keep && x == d@)));
        assert forall|x: Seq<char>| #[trigger] set.has(x) <==> (set0.has(x) || (present.has(x) && !(skip_self && x == dv)
            && tv.take(j + 1).contains(x))) by {
            let a = tv.take(j as int);
            let b = tv.take(j + 1);
            assert(b =~= a.push(tv[j as int]));
            assert(set.has(x) <==> (prev.has(x) || (x == d@ && !(skip_self && x == dv) && present.has(x))));
            if b.contains(x) {
                let k = choose|k: int| 0 <= k < b.len() && #[trigger] b[k] == x;
                if k < j {
                    assert(a[k] == x);
                }
            }
            if a.contains(x) {
                let k = choose|k: int| 0 <= k < a.len() && #[trigger] a[k] == x;
                assert(b[k] == x);
            }
            assert(tv.take(j + 1)[j as int] == tv[j as int]);
        }
        j = j + 1;
    }
    assert(str_views(targets@).take(targets@.len() as int) =~= str_views(targets@));
    let _ = graph.replace_at(idx, set);
    proof {
        assert forall|r: Seq<char>| #[trigger] graph.has(r) <==> (g0.has(r) || r == dv) by {
            assert(graph.keys() == g1.keys());
            assert(g1.to_map().dom().contains(r) == g1.has(r));
        }
        assert forall|r: Seq<char>| g0.has(r) && r != dv implies #[trigger] graph.value_of(r) == g0.value_of(r) by {
            assert(g1.has(r));
            let k = key_index(g1.keys(), r);
            assert(0 <= k < g1.keys().len() && g1.keys()[k] == r);
            assert(k != idx);
            assert(graph.value_of(r) == g1.value_of(r));
        }
        assert(graph.value_of(dv) == set);
        assert forall|i: int| 0 <= i < graph.vals().len() implies (#[trigger] graph.vals()[i]).wf() by {
            if i != idx {
                assert(graph.vals()[i] == g1.vals()[i]);
            }
        }
        if g0.has(dv) {
            assert(g1 == g0);
            assert(set0 == g0.value_of(dv));
        } else {
            assert(set0 == g1.vals()[idx as int]);
            assert(set0.elems().len() == 0);
        }
    }
}

/// Growing a prefix of links by one link.
pub proof fn lemma_links_prefix(links: Seq<(Seq<char>, Seq<Seq<char>>)>, i: int, r: Seq<char>, d: Seq<char>)
    requires
        0 <= i < links.len(),
    ensures
        has_link(links.take(i + 1), r, d) <==> (has_link(links.take(i), r, d) || (links[i].0 == r && links[i].1.contains(d))),
        has_source(links.take(i + 1), r) <==> (has_source(links.take(i), r) || links[i].0 == r),
{
    let a = links.take(i);
    let b = links.take(i + 1);
    assert(b =~= a.push(links[i]));
    if has_link(b, r, d) {
        let k = choose|k: int| 0 <= k < b.len() && (#[trigger] b[k]).0 == r && b[k].1.contains(d);
        if k < i {
            assert(a[k] == b[k]);
        }
    }
    if has_link(a, r, d) {
        let k = choose|k: int| 0 <= k < a.len() && (#[trigger] a[k]).0 == r && a[k].1.contains(d);
        assert(a[k] == b[k]);
    }
    if links[i].0 == r && links[i].1.contains(d) {
        assert(b[i] == links[i]);
    }
    if has_source(b, r) {
        let k = choose|k: int| 0 <= k < b.len() && (#[trigger] b[k]).0 == r;
        if k < i {
            assert(a[k] == b[k]);
        }
    }
    if has_source(a, r) {
        let k = choose|k: int| 0 <= k < a.len() && (#[trigger] a[k]).0 == r;
        assert(a[k] == b[k]);
    }
    if links[i].0 == r {
        assert(b[i] == links[i]);
    }
}

/// Adds the edges of `links`, keeping only nodes of `present`.
fn add_links(graph: &mut StrMap<StrSet>, present: &StrSet, links: &Vec<Dependency>, skip_self: bool)
    requires
        graph_wf(*old(graph)),
        present.wf(),
        forall|r: Seq<char>| #[trigger] old(graph).has(r) ==> present.has(r),
    ensures
        graph_wf(*final(graph)),
        forall|r: Seq<char>| #[trigger] final(graph).has(r) ==> present.has(r),
        forall|r: Seq<char>| #[trigger] final(graph).has(r) <==> (old(graph).has(r) || (present.has(r) && has_source(deps_view(links@), r))),
        forall|r: Seq<char>, d: Seq<char>| #[trigger] final(graph).has(r) ==> (#[trigger] final(graph).value_of(r).has(d) <==> (
            (old(graph).has(r) && old(graph).value_of(r).has(d))
            || (present.has(d) && !(skip_self && d == r) && has_link(deps_view(links@), r, d)))),
{
    let ghost g0 = *graph;
    let ghost lv = deps_view(links@);
    let mut i: usize = 0;
    assert(lv.take(0) =~= Seq::<(Seq<char>, Seq<Seq<char>>)>::empty());
    while i < links.len()
        invariant
            i <= links@.len(),
            lv == deps_view(links@),
            graph_wf(*graph),
            present.wf(),
            forall|r: Seq<char>| #[trigger] g0.has(r) ==> present.has(r),
            forall|r: Seq<char>| #[trigger] graph.has(r) ==> present.has(r),
            forall|r: Seq<char>| #[trigger] graph.has(r) <==> (g0.has(r) || (present.has(r) && has_source(lv.take(i as int), r))),
            forall|r: Seq<char>, d: Seq<char>| #[trigger] graph.has(r) ==> (#[trigger] graph.value_of(r).has(d) <==> (
                (g0.has(r) && g0.value_of(r).has(d))
                || (present.has(d) && !(skip_self && d == r) && has_link(lv.take(i as int), r, d)))),
        decreases links@.len() - i,
    {
        let ghost g = *graph;
        let l = &links[i];
        assert(lv[i as int] == (l.dependency_ref@, str_views(l.dependencies@)));
        link(graph, present, l.dependency_ref.clone(), &l.dependencies, skip_self);
        proof {
            let dv = l.dependency_ref@;
            assert forall|r: Seq<char>| #[trigger] graph.has(r) <==> (g0.has(r) || (present.has(r) && has_source(lv.take(i + 1), r))) by {
                lemma_links_prefix(lv, i as int, r, r);
            }
            assert forall|r: Seq<char>, d: Seq<char>| #[trigger] graph.has(r) implies (#[trigger] graph.value_of(r).has(d) <==> (
                (g0.has(r) && g0.value_of(r).has(d))
                || (present.has(d) && !(skip_self && d == r) && has_link(lv.take(i + 1), r, d)))) by {
                lemma_links_prefix(lv, i as int, r, d);
                if r == dv {
                    if !g.has(r) {
                        if has_link(lv.take(i as int), r, d) {
                            let k = choose|k: int| 0 <= k < lv.take(i as int).len() && (#[trigger] lv.take(i as int)[k]).0 == r && lv.take(i as int)[k].1.contains(d);
                            assert(has_source(lv.take(i as int), r));
                        }
                    }
                } else {
                    assert(g.has(r));
                }
            }
        }
        i = i + 1;
    }
    assert(lv.take(links@.len() as int) =~= lv);
}

/// The references of a list of store paths.
fn bom_refs_vec(paths: &Vec<String>) -> (r: Vec<String>)
    ensures
        str_views(r@) == bom_refs_of(str_views(paths@)),
{
    let mut r: Vec<String> = Vec::new();
    let mut i: usize = 0;
    while i < paths.len()
        invariant
            i <= paths@.len(),
            r@.len() == i,
            forall|j: int| 0 <= j < i ==> (#[trigger] r@[j])@ == bom_ref_of(paths@[j]@),
        decreases paths@.len() - i,
    {
        r.push(bom_ref(paths[i].as_str()));
        i = i + 1;
    }
    assert(str_views(r@) =~= bom_refs_of(str_views(paths@)));
    r
}

/// The runtime reference graph as links between references.
fn runtime_links_of(rt: &RuntimeInput) -> (r: Vec<Dependency>)
    requires
        rt.wf(),
    ensures
        deps_view(r@) == runtime_links(*rt),
{
    let mut r: Vec<Dependency> = Vec::new();
    let n = rt.references.len();
    let mut i: usize = 0;
    while i < n
        invariant
            rt.wf(),
            n == rt.references.keys().len(),
            i <= n,
            r@.len() == i,
            forall|j: int| 0 <= j < i ==> #[trigger] dep_view(r@[j]) == runtime_links(*rt)[j],
        decreases n - i,
    {
        let dependent = bom_ref(rt.references.key_at(i).as_str());
        let targets = bom_refs_vec(rt.references.value_at(i));
        r.push(Dependency { dependency_ref: dependent, dependencies: targets });
        i = i + 1;
    }
    assert(deps_view(r@) =~= runtime_links(*rt));
    r
}

/// The build-time reference graph as links between references.
fn build_links_of(bt: &BuildtimeInput) -> (r: Vec<Dependency>)
    requires
        bt.wf(),
    ensures
        deps_view(r@) == build_links(*bt),
{
    let mut r: Vec<Dependency> = Vec::new();
    let n = bt.0.len();
    let mut i: usize = 0;
    while i < n
        invariant
            bt.wf(),
            n == bt.0.keys().len(),
            i <= n,
            r@.len() == i,
            forall|j: int| 0 <= j < i ==> #[trigger] dep_view(r@[j]) == build_links(*bt)[j],
        decreases n - i,
    {
        let d = bt.0.value_at(i);
        let dependent = bom_ref(d.path.as_str());
        let targets = bom_refs_vec(&d.build_references);
        r.push(Dependency { dependency_ref: dependent, dependencies: targets });
        i = i + 1;
    }
    assert(deps_view(r@) =~= build_links(*bt));
    r
}

/// Declares every element of `present` as a node.
fn add_nodes(graph: &mut StrMap<StrSet>, present: &StrSet)
    requires
        graph_wf(*old(graph)),
        present.wf(),
    ensures
        graph_wf(*final(graph)),
        forall|r: Seq<char>| #[trigger] final(graph).has(r) <==> (old(graph).has(r) || present.has(r)),
        forall|r: Seq<char>| old(graph).has(r) ==> #[trigger] final(graph).value_of(r) == old(graph).value_of(r),
        forall|r: Seq<char>, d: Seq<char>| !old(graph).has(r) && final(graph).has(r) ==> !(#[trigger] final(graph).value_of(r).has(d)),
{
    let ghost g0 = *graph;
    let n = present.len();
    let mut i: usize = 0;
    while i < n
        invariant
            i <= n,
            n == present.elems().len(),
            present.wf(),
            graph_wf(*graph),
            forall|r: Seq<char>| #[trigger] graph.has(r) <==> (g0.has(r) || present.elems().take(i as int).contains(r)),
            forall|r: Seq<char>| g0.has(r) ==> #[trigger] graph.value_of(r) == g0.value_of(r),
            forall|r: Seq<char>, d: Seq<char>| !g0.has(r) && graph.has(r) ==> !(#[trigger] graph.value_of(r).has(d)),
        decreases n - i,
    {
        let ghost g = *graph;
        let k = present.get(i).clone();
        let ghost kv = k@;
        let empty = StrSet::new();
        let ghost e = empty;
        let added = graph.insert_if_absent(k, empty);
        proof {
            let a = present.elems().take(i as int);
            let b = present.elems().take(i + 1);
            assert(b =~= a.push(kv));
            assert forall|r: Seq<char>| #[trigger] graph.has(r) <==> (g0.has(r) || b.contains(r)) by {
                if added {
                    assert(graph.to_map().dom().contains(r) == graph.has(r));
                    assert(g.to_map().dom().contains(r) == g.has(r));
                }
                if r == kv {
                    assert(b[i as int] == kv);
                }
                if b.contains(r) && r != kv {
                    let j = choose|j: int| 0 <= j < b.len() && b[j] == r;
                    assert(a[j] == r);
                }
                if a.contains(r) {
                    let j = choose|j: int| 0 <= j < a.len() && a[j] == r;
                    assert(b[j] == r);
                }
            }
            assert forall|r: Seq<char>| g.has(r) implies #[trigger] graph.value_of(r) == g.value_of(r) by {
                if added {
                    assert(graph.to_map()[r] == graph.value_of(r));
                    assert(g.to_map()[r] == g.value_of(r));
                }
            }
            if added {
                assert(graph.to_map().dom().contains(kv));
                assert(graph.has(kv));
                assert(graph.to_map()[kv] == graph.value_of(kv));
                assert(graph.value_of(kv) == e);
            }
            assert forall|j: int| 0 <= j < graph.vals().len() implies (#[trigger] graph.vals()[j]).wf() by {
                if added {
                    let kj = graph.keys()[j];
                    assert(graph.keys().contains(kj));
                    lemma_sorted_index(graph.keys(), kj, j);
                    if kj == kv {
                        assert(graph.to_map().dom().contains(kv));
                        assert(graph.to_map()[kv] == graph.value_of(kv));
                    } else {
                        assert(graph.to_map().dom().contains(kj));
                        assert(g.to_map().dom().contains(kj));
                        assert(graph.to_map()[kj] == graph.value_of(kj));
                        assert(g.has(kj));
                        let gj = key_index(g.keys(), kj);
                        assert(0 <= gj < g.keys().len() && g.keys()[gj] == kj);
                        assert(g.vals()[gj].wf());
                    }
                }
            }
        }
        i = i + 1;
    }
    assert(present.elems().take(n as int) =~= present.elems());
}

/// The entries of a graph, in increasing order of their references.
fn graph_to_dependencies(graph: StrMap<StrSet>) -> (r: Vec<Dependency>)
    requires
        graph_wf(graph),
    ensures
        r@.len() == graph.keys().len(),
        forall|i: int| 0 <= i < r@.len() ==> (#[trigger] r@[i]).dependency_ref@ == graph.keys()[i],
        forall|i: int| 0 <= i < r@.len() ==> str_views((#[trigger] r@[i]).dependencies@) == graph.vals()[i].elems(),
{
    let ghost g = graph;
    let (ks, vs) = graph.into_parts();
    let mut r: Vec<Dependency> = Vec::new();
    let mut i: usize = 0;
    let n = ks.len();
    for set in it: vs
        invariant
            n == ks@.len(),
            it.seq() == g.vals(),
            str_views(ks@) == g.keys(),
            g.keys().len() == g.vals().len(),
            i == it.index(),
            r@.len() == i,
            forall|j: int| 0 <= j < i ==> (#[trigger] r@[j]).dependency_ref@ == g.keys()[j],
            forall|j: int| 0 <= j < i ==> str_views((#[trigger] r@[j]).dependencies@) == g.vals()[j].elems(),
    {
        assert(i < ks@.len());
        let k = ks[i].clone();
        assert(k@ == g.keys()[i as int]);
        r.push(Dependency { dependency_ref: k, dependencies: set.into_vec() });
        i = i + 1;
    }
    r
}

/// The views of the references of a list of dependencies.
pub open spec fn dependency_refs(deps: Seq<Dependency>) -> Seq<Seq<char>> {
    deps.map_values(|d: Dependency| d.dependency_ref@)
}

/// `deps` is the graph over the references `present`: one entry for each of them, in
/// increasing order, each listing in increasing order the references it has an edge to.
pub open spec fn assembled_graph(
    deps: Seq<Dependency>,
    present: Set<Seq<char>>,
    rt: RuntimeInput,
    bt: BuildtimeInput,
    include_buildtime_dependencies: bool,
    vendored: Seq<Dependency>,
) -> bool {
    &&& strictly_sorted(dependency_refs(deps))
    &&& forall|x: Seq<char>| #[trigger] dependency_refs(deps).contains(x) <==> present.contains(x)
    &&& forall|i: int| 0 <= i < deps.len() ==> strictly_sorted(str_views((#[trigger] deps[i]).dependencies@))
    &&& forall|i: int, d: Seq<char>| 0 <= i < deps.len() ==> (
        #[trigger] str_views(deps[i].dependencies@).contains(d) <==> dependency_edge(
            present, rt, bt, include_buildtime_dependencies, vendored, deps[i].dependency_ref@, d))
}

/// The dependency graph of the document.
pub struct CycloneDXDependencies(pub Vec<Dependency>);

impl CycloneDXDependencies {
    /// Assemble the `CycloneDX` dependency graph. Three sources of edges are combined:
    ///   - the Nix runtime reference graph, keyed by store path
    ///   - the Nix build-time reference graph (each derivation's direct build inputs)
    ///   - the language-level graphs carried by the vendored SBOMs, keyed by purl
    ///
    /// Edges are restricted to refs that actually exist in the final BOM, so the graph stays
    /// valid after filtering and deduplication. Entries are merged by ref so no `dependency_ref`
    /// appears twice, and every component is declared, leaves with no dependencies included.
    pub fn assemble(
        components: &CycloneDXComponents,
        target_derivation: &Derivation,
        runtime_input: &RuntimeInput,
        buildtime_input: &BuildtimeInput,
        include_buildtime_dependencies: bool,
        vendored_dependencies: VendoredDependencies,
    ) -> (r: Self)
        requires
            runtime_input.wf(),
            buildtime_input.wf(),
        ensures
            assembled_graph(
                r.0@, present_refs(components.0@, *target_derivation), *runtime_input, *buildtime_input,
                include_buildtime_dependencies, vendored_dependencies.0@),
    {
        let ghost present_set = present_refs(components.0@, *target_derivation);
        let ghost vd = vendored_dependencies.0@;
        let mut present = components.bom_refs();
        present.insert(bom_ref(target_derivation.path.as_str()));
        assert(forall|x: Seq<char>| #[trigger] present.has(x) <==> present_set.contains(x));

        let mut graph: StrMap<StrSet> = StrMap::new();
        let ghost g0 = graph;
        assert(graph.keys().len() == 0);
        let rl = runtime_links_of(runtime_input);
        add_links(&mut graph, &present, &rl, false);
        let ghost g1 = graph;
        if include_buildtime_dependencies {
            let bl = build_links_of(buildtime_input);
            add_links(&mut graph, &present, &bl, true);
        }
        let ghost g2 = graph;
        add_links(&mut graph, &present, &vendored_dependencies.0, false);
        let ghost g3 = graph;
        add_nodes(&mut graph, &present);
        let ghost g4 = graph;
        proof {
            let rlv = runtime_links(*runtime_input);
            let blv = build_links(*buildtime_input);
            let vdv = deps_view(vd);
            assert(forall|r: Seq<char>| !(#[trigger] g0.has(r)));
            assert forall|r: Seq<char>| #[trigger] g4.has(r) <==> present_set.contains(r) by {
                if g4.has(r) {
                    if !present.has(r) {
                        assert(!g3.has(r));
                    }
                }
            }
            assert forall|r: Seq<char>, d: Seq<char>| #[trigger] g4.has(r) implies (#[trigger] g4.value_of(r).has(d) <==> dependency_edge(
                present_set, *runtime_input, *buildtime_input, include_buildtime_dependencies, vd, r, d)) by {
                let e1 = present.has(d) && has_link(rlv, r, d);
                let e2 = include_buildtime_dependencies && present.has(d) && d != r && has_link(blv, r, d);
                let e3 = present.has(d) && has_link(vdv, r, d);
                if g3.has(r) {
                    assert(g4.value_of(r) == g3.value_of(r));
                    if g2.has(r) {
                        if g1.has(r) {
                            assert(g1.value_of(r).has(d) <==> e1);
                        } else {
                            assert(!has_source(rlv, r));
                            assert(!has_link(rlv, r, d));
                        }
                        if include_buildtime_dependencies {
                            assert(g2.value_of(r).has(d) <==> ((g1.has(r) && g1.value_of(r).has(d)) || e2));
                        } else {
                            assert(g2 == g1);
                        }
                    } else {
                        assert(!g1.has(r));
                        assert(!has_source(rlv, r));
                        assert(!has_link(rlv, r, d));
                        if include_buildtime_dependencies {
                            assert(!has_source(blv, r));
                            assert(!has_link(blv, r, d));
                        }
                    }
                    assert(g3.value_of(r).has(d) <==> ((g2.has(r) && g2.value_of(r).has(d)) || e3));
                } else {
                    assert(!g2.has(r));
                    assert(!g1.has(r));
                    assert(!has_source(rlv, r));
                    assert(!has_link(rlv, r, d));
                    if include_buildtime_dependencies {
                        assert(!has_source(blv, r));
                        assert(!has_link(blv, r, d));
                    }
                    assert(!has_source(vdv, r));
                    assert(!has_link(vdv, r, d));
                    assert(!g4.value_of(r).has(d));
                }
            }
        }
        let deps = graph_to_dependencies(graph);
        proof {
            let refs = dependency_refs(deps@);
            assert(refs =~= g4.keys());
            assert forall|x: Seq<char>| #[trigger] refs.contains(x) <==> present_set.contains(x) by {
                assert(g4.has(x) == refs.contains(x));
            }
            assert forall|i: int| 0 <= i < deps@.len() implies strictly_sorted(str_views((#[trigger] deps@[i]).dependencies@)) by {
                assert(g4.vals()[i].wf());
            }
            assert forall|i: int, d: Seq<char>| 0 <= i < deps@.len() implies (
                #[trigger] str_views(deps@[i].dependencies@).contains(d) <==> dependency_edge(
                    present_set, *runtime_input, *buildtime_input, include_buildtime_dependencies,
                    vd, deps@[i].dependency_ref@, d)) by {
                let k = g4.keys()[i];
                assert(g4.keys().contains(k));
                lemma_sorted_index(g4.keys(), k, i);
                assert(g4.value_of(k) == g4.vals()[i]);
                assert(g4.value_of(k).has(d) == g4.vals()[i].elems().contains(d));
                assert(g4.has(k));
                assert(g4.value_of(k).has(d) <==> dependency_edge(
                    present_set, *runtime_input, *buildtime_input, include_buildtime_dependencies, vd, k, d));
                assert(deps@[i].dependency_ref@ == k);
            }
        }
        CycloneDXDependencies(deps)
    }
}

/// In an assembled graph no `dependency_ref` appears twice, nor a dependency twice in one entry.
pub proof fn lemma_dependency_refs_distinct(deps: Seq<Dependency>)
    requires
        strictly_sorted(dependency_refs(deps)),
        forall|i: int| 0 <= i < deps.len() ==> strictly_sorted(str_views((#[trigger] deps[i]).dependencies@)),
    ensures
        forall|i: int, j: int| 0 <= i < j < deps.len() ==> (#[trigger] deps[i]).dependency_ref@ != (#[trigger] deps[j]).dependency_ref@,
        forall|i: int, a: int, b: int| 0 <= i < deps.len() && 0 <= a < b < deps[i].dependencies@.len()
            ==> (#[trigger] deps[i].dependencies@[a])@ != (#[trigger] deps[i].dependencies@[b])@,
{
    lemma_sorted_distinct(dependency_refs(deps));
    assert forall|i: int, j: int| 0 <= i < j < deps.len() implies (#[trigger] deps[i]).dependency_ref@ != (#[trigger] deps[j]).dependency_ref@ by {
        assert(dependency_refs(deps)[i] == deps[i].dependency_ref@);
        assert(dependency_refs(deps)[j] == deps[j].dependency_ref@);
    }
    assert forall|i: int, a: int, b: int| 0 <= i < deps.len() && 0 <= a < b < deps[i].dependencies@.len()
        implies (#[trigger] deps[i].dependencies@[a])@ != (#[trigger] deps[i].dependencies@[b])@ by {
        let v = str_views(deps[i].dependencies@);
        lemma_sorted_distinct(v);
        assert(v[a] == deps[i].dependencies@[a]@);
        assert(v[b] == deps[i].dependencies@[b]@);
    }
}

/// An assembled graph is closed: each reference that an entry depends on has an entry of its
/// own, and the build-time graph gives no entry an edge to itself.
pub proof fn lemma_graph_closed(
    deps: Seq<Dependency>,
    present: Set<Seq<char>>,
    rt: RuntimeInput,
    bt: BuildtimeInput,
    include_buildtime_dependencies: bool,
    vendored: Seq<Dependency>,
)
    requires
        assembled_graph(deps, present, rt, bt, include_buildtime_dependencies, vendored),
    ensures
        forall|i: int, j: int| 0 <= i < deps.len() && 0 <= j < deps[i].dependencies@.len()
            ==> dependency_refs(deps).contains((#[trigger] deps[i].dependencies@[j])@),
        forall|i: int, j: int| 0 <= i < deps.len() && 0 <= j < deps[i].dependencies@.len()
            && (#[trigger] deps[i].dependencies@[j])@ == deps[i].dependency_ref@
            ==> has_link(runtime_links(rt), deps[i].dependency_ref@, deps[i].dependency_ref@)
                || has_link(deps_view(vendored), deps[i].dependency_ref@, deps[i].dependency_ref@),
{
    assert forall|i: int, j: int| 0 <= i < deps.len() && 0 <= j < deps[i].dependencies@.len()
        implies dependency_refs(deps).contains((#[trigger] deps[i].dependencies@[j])@) by {
        let d = deps[i].dependencies@[j]@;
        assert(str_views(deps[i].dependencies@)[j] == d);
        assert(str_views(deps[i].dependencies@).contains(d));
        assert(present.contains(d));
    }
    assert forall|i: int, j: int| 0 <= i < deps.len() && 0 <= j < deps[i].dependencies@.len()
        && (#[trigger] deps[i].dependencies@[j])@ == deps[i].dependency_ref@
        implies has_link(runtime_links(rt), deps[i].dependency_ref@, deps[i].dependency_ref@)
            || has_link(deps_view(vendored), deps[i].dependency_ref@, deps[i].dependency_ref@) by {
        let d = deps[i].dependencies@[j]@;
        assert(str_views(deps[i].dependencies@)[j] == d);
        assert(str_views(deps[i].dependencies@).contains(d));
    }
}

/// An assembled graph is fixed by what it is assembled from: two entry lists that are each the
/// graph over the same references, from the same inputs, hold the same references and edges in
/// the same order. So two assemblies from equal inputs give equal graphs.
pub proof fn lemma_assembled_graph_unique(
    d1: Seq<Dependency>,
    d2: Seq<Dependency>,
    present: Set<Seq<char>>,
    rt: RuntimeInput,
    bt: BuildtimeInput,
    include_buildtime_dependencies: bool,
    vendored: Seq<Dependency>,
)
    requires
        assembled_graph(d1, present, rt, bt, include_buildtime_dependencies, vendored),
        assembled_graph(d2, present, rt, bt, include_buildtime_dependencies, vendored),
    ensures
        deps_view(d1) == deps_view(d2),
{
    let r1 = dependency_refs(d1);
    let r2 = dependency_refs(d2);
    assert forall|x: Seq<char>| r1.contains(x) <==> r2.contains(x) by {
        assert(r1.contains(x) <==> present.contains(x));
        assert(r2.contains(x) <==> present.contains(x));
    }
    lemma_sorted_unique(r1, r2);
    assert(d1.len() == r1.len() && d2.len() == r2.len());
    assert forall|i: int| 0 <= i < d1.len() implies #[trigger] dep_view(d1[i]) == dep_view(d2[i]) by {
        assert(r1[i] == d1[i].dependency_ref@);
        assert(r2[i] == d2[i].dependency_ref@);
        let a = str_views(d1[i].dependencies@);
        let b = str_views(d2[i].dependencies@);
        assert(strictly_sorted(a));
        assert(strictly_sorted(b));
        assert forall|x: Seq<char>| a.contains(x) <==> b.contains(x) by {
            assert(a.contains(x) <==> dependency_edge(
                present, rt, bt, include_buildtime_dependencies, vendored, d1[i].dependency_ref@, x));
            assert(b.contains(x) <==> dependency_edge(
                present, rt, bt, include_buildtime_dependencies, vendored, d2[i].dependency_ref@, x));
        }
        lemma_sorted_unique(a, b);
    }
    assert(deps_view(d1) =~= deps_view(d2));
}

/// With build-time dependencies left out, the build-time graph changes nothing: graphs
/// assembled over the same references from any two build-time inputs, and from vendored graphs
/// with the same edges, are equal.
pub proof fn lemma_buildtime_ignored_when_excluded(
    d1: Seq<Dependency>,
    d2: Seq<Dependency>,
    present: Set<Seq<char>>,
    rt: RuntimeInput,
    bt1: BuildtimeInput,
    bt2: BuildtimeInput,
    v1: Seq<Dependency>,
    v2: Seq<Dependency>,
)
    requires
        assembled_graph(d1, present, rt, bt1, false, v1),
        assembled_graph(d2, present, rt, bt2, false, v2),
        deps_view(v1) == deps_view(v2),
    ensures
        deps_view(d1) == deps_view(d2),
{
    assert forall|i: int, d: Seq<char>| 0 <= i < d2.len() implies (
        #[trigger] str_views(d2[i].dependencies@).contains(d) <==> dependency_edge(
            present, rt, bt1, false, v1, d2[i].dependency_ref@, d)) by {
        assert(str_views(d2[i].dependencies@).contains(d) <==> dependency_edge(
            present, rt, bt2, false, v2, d2[i].dependency_ref@, d));
    }
    assert(assembled_graph(d2, present, rt, bt1, false, v1));
    lemma_assembled_graph_unique(d1, d2, present, rt, bt1, false, v1);
}

} // verus!
