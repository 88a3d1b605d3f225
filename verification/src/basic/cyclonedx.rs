//! The document of the basic transformer.
use vstd::prelude::*;

use super::buildtime_input::{BuildtimeInput, Derivation, DerivationView, Meta, MetaView};
use crate::bom::is_urn_uuid;
use crate::component::{
    choices_view, purl_for, purl_of, references_view, ComponentBodyView, ComponentView, ExternalReferenceView,
    LicenseChoiceView, NixComponentView,
};
use crate::cyclonedx::{
    ComponentBody, CycloneDXComponent, ExternalReference, ExternalReferenceType, LicenseChoice, NixComponent,
};
use crate::derivation::{license_views, License, LicenseFieldView, LicenseView};
use crate::strmap::StrSet;
use crate::text::{opt_view, str_views};

verus! {

/// Whether the `spdx` crate, through `cyclonedx-bom`, knows a text as an SPDX license identifier.
pub uninterp spec fn known_spdx_id(id: Seq<char>) -> bool;

/// Calls `SpdxIdentifier::try_from` of `cyclonedx-bom`. Claimed: it accepts exactly the
/// texts of which `known_spdx_id` holds.
#[verifier::external_body]
fn is_spdx_id(id: &str) -> (r: bool)
    ensures
        r == known_spdx_id(id@),
{
    cyclonedx_bom::external_models::spdx::SpdxIdentifier::try_from(id.to_string()).is_ok()
}

/// Whether `cyclonedx-bom` accepts a text as a URI (RFC 3986).
pub uninterp spec fn valid_uri(s: Seq<char>) -> bool;

/// Calls `Uri::try_from` of `cyclonedx-bom`. Claimed: it accepts exactly the texts of which
/// `valid_uri` holds.
#[verifier::external_body]
fn is_uri(s: &str) -> (r: bool)
    ensures
        r == valid_uri(s@),
{
    cyclonedx_bom::external_models::uri::Uri::try_from(s.to_string()).is_ok()
}

/// Calls `UrnUuid::generate` of `cyclonedx-bom`, which draws a random version 4 UUID.
/// Claimed, as its source shows: the text is `urn:uuid:` followed by some UUID in hyphenated
/// form. Which UUID is left open.
#[verifier::external_body]
fn random_urn_uuid() -> (r: String)
    ensures
        is_urn_uuid(r@),
{
    cyclonedx_bom::models::bom::UrnUuid::generate().to_string()
}

/// A tool that made the document.
pub struct Tool {
    pub vendor: String,
    pub name: String,
    pub version: String,
}

pub struct Metadata {
    pub tools: Vec<Tool>,
    pub component: CycloneDXComponent,
}

/// The document: its metadata and its components.
pub struct Bom {
    pub metadata: Metadata,
    pub components: Vec<CycloneDXComponent>,
}

pub struct CycloneDXBom(pub Bom);

/// A license: its SPDX identifier where `cyclonedx-bom` knows it, else its name.
pub open spec fn license_choice(l: LicenseView) -> LicenseChoiceView {
    match l.spdx_id {
        Some(id) => if known_spdx_id(id) { LicenseChoiceView::SpdxId(id) } else { LicenseChoiceView::Named(l.full_name) },
        None => LicenseChoiceView::Named(l.full_name),
    }
}

pub open spec fn field_licenses(f: LicenseFieldView) -> Seq<LicenseView> {
    match f {
        LicenseFieldView::LicenseList(l) => l,
        LicenseFieldView::License(l) => seq![l],
        LicenseFieldView::String(_) => Seq::empty(),
    }
}

pub open spec fn converted_licenses(m: MetaView) -> Option<Seq<LicenseChoiceView>> {
    match m.license {
        Some(f) => Some(field_licenses(f).map_values(|l: LicenseView| license_choice(l))),
        None => None,
    }
}

/// The homepage as a website reference, where it is a URI.
pub open spec fn converted_homepage(m: MetaView) -> Option<Seq<ExternalReferenceView>> {
    match m.homepage {
        Some(h) => if valid_uri(h) {
            Some(seq![ExternalReferenceView { reference_type: ExternalReferenceType::Website, url: h, hashes: None }])
        } else {
            None
        },
        None => None,
    }
}

pub open spec fn component_name(d: DerivationView) -> Seq<char> {
    match d.pname {
        Some(p) => p,
        None => match d.name {
            Some(n) => n,
            None => Seq::empty(),
        },
    }
}

pub open spec fn component_version(d: DerivationView) -> Seq<char> {
    match d.version {
        Some(v) => v,
        None => Seq::empty(),
    }
}

/// What a component made from a derivation is, its random reference aside.
pub open spec fn component_matches(c: ComponentView, d: DerivationView) -> bool {
    let name = component_name(d);
    let version = component_version(d);
    &&& c.bom_ref matches Some(r) && is_urn_uuid(r)
    &&& c.name == name
    &&& c.purl == purl_for(name, version)
    &&& c.body == ComponentBodyView::Nix(NixComponentView {
        version,
        scope: None,
        hashes: None,
        licenses: match d.meta {
            Some(m) => converted_licenses(m),
            None => None,
        },
        description: None,
        cpe: None,
        evidence: None,
        external_references: match d.meta {
            Some(m) => converted_homepage(m),
            None => None,
        },
        patches: None,
    })
}

pub fn convert_license(license: License) -> (r: LicenseChoice)
    ensures
        r@ == license_choice(license@),
{
    match license.spdx_id {
        Some(spdx_id) => if is_spdx_id(spdx_id.as_str()) {
            LicenseChoice::SpdxId(spdx_id)
        } else {
            LicenseChoice::Named(license.full_name)
        },
        None => LicenseChoice::Named(license.full_name),
    }
}

pub fn convert_licenses(meta: &Meta) -> (r: Option<Vec<LicenseChoice>>)
    ensures
        match r {
            Some(v) => converted_licenses(meta@) == Some(choices_view(v@)),
            None => converted_licenses(meta@) is None,
        },
{
    match &meta.license {
        Some(field) => {
            let licenses = field.duplicate().into_vec();
            let ghost ls = license_views(licenses@);
            let ghost raw = licenses@;
            let mut v: Vec<LicenseChoice> = Vec::new();
            for license in it: licenses
                invariant
                    it.seq() == raw,
                    ls == license_views(raw),
                    v@.len() == it.index(),
                    forall|j: int| 0 <= j < v@.len() ==> (#[trigger] v@[j])@ == license_choice(ls[j]),
            {
                v.push(convert_license(license));
            }
            assert(choices_view(v@) =~= field_licenses(field@).map_values(|l: LicenseView| license_choice(l)));
            Some(v)
        },
        None => None,
    }
}

pub fn convert_homepage(meta: &Meta) -> (r: Option<Vec<ExternalReference>>)
    ensures
        match r {
            Some(v) => converted_homepage(meta@) == Some(references_view(v@)),
            None => converted_homepage(meta@) is None,
        },
{
    match &meta.homepage {
        Some(homepage) => if is_uri(homepage.as_str()) {
            let mut v: Vec<ExternalReference> = Vec::new();
            v.push(ExternalReference {
                reference_type: ExternalReferenceType::Website,
                url: homepage.clone(),
                hashes: None,
            });
            assert(references_view(v@) =~= seq![ExternalReferenceView {
                reference_type: ExternalReferenceType::Website,
                url: homepage@,
                hashes: None,
            }]);
            Some(v)
        } else {
            None
        },
        None => None,
    }
}

/// The component that a derivation becomes; its reference is a fresh random UUID.
pub fn derivation_to_component(derivation: Derivation) -> (r: CycloneDXComponent)
    ensures
        component_matches(r@, derivation@),
{
    let name = match &derivation.pname {
        Some(pname) => pname.clone(),
        None => match &derivation.name {
            Some(n) => n.clone(),
            None => String::new(),
        },
    };
    let version = match &derivation.version {
        Some(v) => v.clone(),
        None => String::new(),
    };
    let purl = purl_of(name.as_str(), version.as_str());
    let bom_ref = random_urn_uuid();
    let (licenses, external_references) = match &derivation.meta {
        Some(meta) => (convert_licenses(meta), convert_homepage(meta)),
        None => (None, None),
    };
    let body = NixComponent {
        version,
        scope: None,
        hashes: None,
        licenses,
        description: None,
        cpe: None,
        evidence: None,
        external_references,
        patches: None,
    };
    CycloneDXComponent { bom_ref: Some(bom_ref), name, purl, body: ComponentBody::Nix(body) }
}

pub open spec fn has_name(s: Seq<DerivationView>, x: Option<Seq<char>>) -> bool {
    exists|i: int| 0 <= i < s.len() && (#[trigger] s[i]).name == x
}

/// The derivations of `s` whose name no earlier derivation has, in order.
pub open spec fn unique_by_name(s: Seq<DerivationView>) -> Seq<DerivationView>
    decreases s.len(),
{
    if s.len() == 0 {
        Seq::empty()
    } else if has_name(s.drop_last(), s.last().name) {
        unique_by_name(s.drop_last())
    } else {
        unique_by_name(s.drop_last()).push(s.last())
    }
}

pub open spec fn in_closure(closure: Set<Seq<char>>) -> spec_fn(DerivationView) -> bool {
    |d: DerivationView| closure.contains(d.path)
}

pub open spec fn derivation_views(s: Seq<Derivation>) -> Seq<DerivationView> {
    s.map_values(|d: Derivation| d@)
}

/// The derivations that become components: one for each name, of those in the runtime closure.
pub open spec fn selected(ds: Seq<DerivationView>, closure: Set<Seq<char>>) -> Seq<DerivationView> {
    unique_by_name(ds).filter(in_closure(closure))
}

/// The components of the runtime closure's derivations, one for each name.
pub fn input_to_components(buildtime_input: BuildtimeInput, runtime_input_set: &StrSet) -> (r: Vec<CycloneDXComponent>)
    requires
        runtime_input_set.wf(),
    ensures
        ({
            let s = selected(derivation_views(buildtime_input.0@), runtime_input_set.elems().to_set());
            &&& r@.len() == s.len()
            &&& forall|i: int| 0 <= i < s.len() ==> component_matches((#[trigger] r@[i])@, s[i])
        }),
{
    let ghost ds = derivation_views(buildtime_input.0@);
    let ghost raw = buildtime_input.0@;
    let ghost closure = runtime_input_set.elems().to_set();
    let ghost pred = in_closure(closure);
    let mut seen = StrSet::new();
    let mut seen_unnamed = false;
    let mut out: Vec<CycloneDXComponent> = Vec::new();
    let ghost mut kept: Seq<DerivationView> = Seq::empty();
    let ghost mut n: int = 0;
    assert(unique_by_name(ds.take(0)).filter(pred) =~= Seq::<DerivationView>::empty()) by {
        reveal(Seq::filter);
        assert(ds.take(0) =~= Seq::<DerivationView>::empty());
    }
    for d in it: buildtime_input.0
        invariant
            it.seq() == raw,
            ds == derivation_views(raw),
            n == it.index(),
            0 <= n <= ds.len(),
            runtime_input_set.wf(),
            closure == runtime_input_set.elems().to_set(),
            pred == in_closure(closure),
            seen.wf(),
            forall|x: Seq<char>| #[trigger] seen.has(x) <==> has_name(ds.take(n), Some(x)),
            seen_unnamed <==> has_name(ds.take(n), None),
            kept == unique_by_name(ds.take(n)).filter(pred),
            out@.len() == kept.len(),
            forall|i: int| 0 <= i < kept.len() ==> component_matches((#[trigger] out@[i])@, kept[i]),
    {
        let ghost dv = d@;
        let ghost p = ds.take(n);
        let ghost q = ds.take(n + 1);
        assert(dv == ds[n]);
        assert(q.drop_last() =~= p);
        assert(q.last() == dv);
        let fresh = match &d.name {
            Some(name) => seen.insert(name.clone()),
            None => {
                let f = !seen_unnamed;
                seen_unnamed = true;
                f
            },
        };
        assert(fresh == !has_name(p, dv.name));
        if fresh {
            proof {
                unique_by_name(p).lemma_filter_push(dv, pred);
            }
            if runtime_input_set.contains(d.path.as_str()) {
                assert(closure.contains(dv.path));
                out.push(derivation_to_component(d));
                proof {
                    kept = kept.push(dv);
                }
            }
        }
        proof {
            assert forall|x: Seq<char>| #[trigger] seen.has(x) <==> has_name(q, Some(x)) by {
                if has_name(q, Some(x)) {
                    let j = choose|j: int| 0 <= j < q.len() && (#[trigger] q[j]).name == Some(x);
                    if j < n {
                        assert(p[j] == q[j]);
                    }
                }
                if has_name(p, Some(x)) {
                    let j = choose|j: int| 0 <= j < p.len() && (#[trigger] p[j]).name == Some(x);
                    assert(p[j] == q[j]);
                }
                if dv.name == Some(x) {
                    assert(q[n] == dv);
                }
            }
            if has_name(q, None) {
                let j = choose|j: int| 0 <= j < q.len() && (#[trigger] q[j]).name == None::<Seq<char>>;
                if j < n {
                    assert(p[j] == q[j]);
                }
            }
            if has_name(p, None) {
                let j = choose|j: int| 0 <= j < p.len() && (#[trigger] p[j]).name == None::<Seq<char>>;
                assert(p[j] == q[j]);
            }
            if dv.name is None {
                assert(q[n] == dv);
            }
            n = n + 1;
        }
    }
    assert(ds.take(n) =~= ds);
    out
}

/// The tool that made the document.
pub fn metadata_tools(version: &str) -> (r: Vec<Tool>)
    ensures
        r@.len() == 1,
        r@[0].vendor@ == "nikstur"@,
        r@[0].name@ == "bombon"@,
        r@[0].version@ == version@,
{
    let mut v: Vec<Tool> = Vec::new();
    v.push(Tool { vendor: "nikstur".to_owned(), name: "bombon".to_owned(), version: version.to_owned() });
    v
}

pub fn metadata_from_derivation(derivation: Derivation, version: &str) -> (r: Metadata)
    ensures
        r.tools@.len() == 1,
        r.tools@[0].vendor@ == "nikstur"@,
        r.tools@[0].name@ == "bombon"@,
        r.tools@[0].version@ == version@,
        component_matches(r.component@, derivation@),
{
    Metadata { tools: metadata_tools(version), component: derivation_to_component(derivation) }
}

impl CycloneDXBom {
    /// The document for a target: the components of the runtime closure, described by the
    /// build-time input; `tool_version` names the version of this tool.
    pub fn build(
        target: Derivation,
        buildtime_input: BuildtimeInput,
        runtime_input: Vec<&str>,
        tool_version: &str,
    ) -> (r: Self)
        ensures
            ({
                let closure = runtime_input@.map_values(|p: &str| p@).to_set();
                let s = selected(derivation_views(buildtime_input.0@), closure);
                &&& r.0.components@.len() == s.len()
                &&& forall|i: int| 0 <= i < s.len() ==> component_matches((#[trigger] r.0.components@[i])@, s[i])
            }),
            component_matches(r.0.metadata.component@, target@),
            r.0.metadata.tools@.len() == 1,
            r.0.metadata.tools@[0].version@ == tool_version@,
    {
        let ghost paths = runtime_input@.map_values(|p: &str| p@);
        let mut set = StrSet::new();
        let mut i: usize = 0;
        while i < runtime_input.len()
            invariant
                i <= runtime_input@.len(),
                paths == runtime_input@.map_values(|p: &str| p@),
                set.wf(),
                forall|x: Seq<char>| #[trigger] set.has(x) <==> paths.take(i as int).contains(x),
            decreases runtime_input@.len() - i,
        {
            let ghost before = set;
            set.insert(runtime_input[i].to_owned());
            proof {
                let a = paths.take(i as int);
                let b = paths.take(i + 1);
                assert(b =~= a.push(paths[i as int]));
                assert forall|x: Seq<char>| #[trigger] set.has(x) <==> b.contains(x) by {
                    if b.contains(x) {
                        let j = choose|j: int| 0 <= j < b.len() && #[trigger] b[j] == x;
                        if j < i {
                            assert(a[j] == x);
                        }
                    }
                    if a.contains(x) {
                        let j = choose|j: int| 0 <= j < a.len() && #[trigger] a[j] == x;
                        assert(b[j] == x);
                    }
                    if x == paths[i as int] {
                        assert(b[i as int] == x);
                    }
                }
            }
            i = i + 1;
        }
        assert(paths.take(i as int) =~= paths);
        assert(set.elems().to_set() =~= paths.to_set()) by {
            assert forall|x: Seq<char>| set.elems().to_set().contains(x) <==> paths.to_set().contains(x) by {
                assert(set.has(x) <==> paths.contains(x));
            }
        }
        let components = input_to_components(buildtime_input, &set);
        CycloneDXBom(Bom { metadata: metadata_from_derivation(target, tool_version), components })
    }
}

/// `unique_by_name` keeps one derivation for each name: no two that it keeps share a name.
pub proof fn lemma_unique_names_distinct(s: Seq<DerivationView>)
    ensures
        forall|i: int, j: int| 0 <= i < j < unique_by_name(s).len()
            ==> (#[trigger] unique_by_name(s)[i]).name != (#[trigger] unique_by_name(s)[j]).name,
        forall|x: Option<Seq<char>>| #[trigger] has_name(unique_by_name(s), x) <==> has_name(s, x),
    decreases s.len(),
{
    if s.len() > 0 {
        let p = s.drop_last();
        let c = s.last();
        lemma_unique_names_distinct(p);
        let up = unique_by_name(p);
        assert forall|x: Option<Seq<char>>| #[trigger] has_name(s, x) <==> (has_name(p, x) || x == c.name) by {
            if has_name(s, x) {
                let j = choose|j: int| 0 <= j < s.len() && (#[trigger] s[j]).name == x;
                if j < p.len() {
                    assert(p[j] == s[j]);
                }
            }
            if has_name(p, x) {
                let j = choose|j: int| 0 <= j < p.len() && (#[trigger] p[j]).name == x;
                assert(p[j] == s[j]);
            }
            if x == c.name {
                assert(s[s.len() - 1] == c);
            }
        }
        if !has_name(p, c.name) {
            let d = up.push(c);
            assert(unique_by_name(s) == d);
            assert forall|x: Option<Seq<char>>| #[trigger] has_name(d, x) <==> (has_name(up, x) || x == c.name) by {
                if has_name(d, x) {
                    let j = choose|j: int| 0 <= j < d.len() && (#[trigger] d[j]).name == x;
                    if j < up.len() {
                        assert(up[j] == d[j]);
                    }
                }
                if has_name(up, x) {
                    let j = choose|j: int| 0 <= j < up.len() && (#[trigger] up[j]).name == x;
                    assert(up[j] == d[j]);
                }
                if x == c.name {
                    assert(d[up.len() as int] == c);
                }
            }
            assert forall|i: int, j: int| 0 <= i < j < d.len() implies (#[trigger] d[i]).name != (#[trigger] d[j]).name by {
                if j == up.len() {
                    assert(d[i] == up[i]);
                    if up[i].name == c.name {
                        assert(has_name(up, c.name));
                    }
                } else {
                    assert(d[i] == up[i]);
                    assert(d[j] == up[j]);
                }
            }
        }
    }
}

/// Filtering derivations whose names are distinct leaves names that are distinct.
proof fn lemma_filter_names_distinct(s: Seq<DerivationView>, pred: spec_fn(DerivationView) -> bool)
    requires
        forall|i: int, j: int| 0 <= i < j < s.len() ==> (#[trigger] s[i]).name != (#[trigger] s[j]).name,
    ensures
        forall|i: int, j: int| 0 <= i < j < s.filter(pred).len()
            ==> (#[trigger] s.filter(pred)[i]).name != (#[trigger] s.filter(pred)[j]).name,
    decreases s.len(),
{
    reveal(Seq::filter);
    if s.len() > 0 {
        let q = s.drop_last();
        assert forall|i: int, j: int| 0 <= i < j < q.len() implies (#[trigger] q[i]).name != (#[trigger] q[j]).name by {
            assert(q[i] == s[i] && q[j] == s[j]);
        }
        lemma_filter_names_distinct(q, pred);
        let fq = q.filter(pred);
        if pred(s.last()) {
            let f = fq.push(s.last());
            assert(s.filter(pred) == f);
            assert forall|i: int, j: int| 0 <= i < j < f.len() implies (#[trigger] f[i]).name != (#[trigger] f[j]).name by {
                if j == fq.len() {
                    assert(f[i] == fq[i]);
                    assert(fq.contains(fq[i]));
                    q.lemma_filter_contains_rev(pred, fq[i]);
                    let k = choose|k: int| 0 <= k < q.len() && q[k] == fq[i];
                    assert(q[k] == s[k]);
                    assert(f[j] == s[s.len() - 1]);
                } else {
                    assert(f[i] == fq[i] && f[j] == fq[j]);
                }
            }
        }
    }
}

/// The basic document has one component for each name: no two of the derivations that become
/// components share a name.
pub proof fn lemma_selected_names_distinct(ds: Seq<DerivationView>, closure: Set<Seq<char>>)
    ensures
        forall|i: int, j: int| 0 <= i < j < selected(ds, closure).len()
            ==> (#[trigger] selected(ds, closure)[i]).name != (#[trigger] selected(ds, closure)[j]).name,
{
    lemma_unique_names_distinct(ds);
    lemma_filter_names_distinct(unique_by_name(ds), in_closure(closure));
}

/// The licenses of the basic document: a license field converts license by license, a single
/// license counting as a list of one and a bare string as none. Each license becomes its SPDX
/// identifier where `cyclonedx-bom` knows it, and its full name otherwise.
pub proof fn lemma_basic_licenses(m: MetaView)
    ensures
        match m.license {
            None => converted_licenses(m) is None,
            Some(f) => {
                let ls = match f {
                    LicenseFieldView::LicenseList(l) => l,
                    LicenseFieldView::License(l) => seq![l],
                    LicenseFieldView::String(_) => Seq::<LicenseView>::empty(),
                };
                &&& converted_licenses(m) matches Some(v)
                &&& v.len() == ls.len()
                &&& forall|i: int| 0 <= i < ls.len() ==> #[trigger] v[i] == match ls[i].spdx_id {
                    Some(id) => if known_spdx_id(id) {
                        LicenseChoiceView::SpdxId(id)
                    } else {
                        LicenseChoiceView::Named(ls[i].full_name)
                    },
                    None => LicenseChoiceView::Named(ls[i].full_name),
                }
            },
        },
{
}

} // verus!
