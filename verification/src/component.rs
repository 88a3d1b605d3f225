//! Components derived from Nix derivations.
use vstd::prelude::*;

use crate::cyclonedx::{
    ComponentBody, CycloneDXComponent, CycloneDXComponents, EvidenceMethod, ExternalReference, ExternalReferenceType,
    ComponentHash, HashAlgorithm, LicenseChoice, NixComponent, Scope,
};
use crate::derivation::{
    cpe_views, Cpe, Derivation, DerivationView, License, LicenseField, LicenseFieldView, LicenseView,
    Meta, MetaView, Src, SrcView,
};
use crate::hash::{lower_hex, sri_parse, Algorithm, SriHash};
use crate::text::{bom_ref, bom_ref_of, clone_opt_str, clone_strs, first_field, opt_view, str_views, trimmed};

verus! {

pub struct HashView {
    pub alg: HashAlgorithm,
    pub content: Seq<char>,
}

pub struct ExternalReferenceView {
    pub reference_type: ExternalReferenceType,
    pub url: Seq<char>,
    pub hashes: Option<Seq<HashView>>,
}

pub enum LicenseChoiceView {
    SpdxId(Seq<char>),
    Named(Seq<char>),
    Expression(Seq<char>),
}

pub struct NixComponentView {
    pub version: Seq<char>,
    pub scope: Option<Scope>,
    pub hashes: Option<Seq<HashView>>,
    pub licenses: Option<Seq<LicenseChoiceView>>,
    pub description: Option<Seq<char>>,
    pub cpe: Option<Seq<char>>,
    pub evidence: Option<Seq<EvidenceMethodView>>,
    pub external_references: Option<Seq<ExternalReferenceView>>,
    pub patches: Option<Seq<Seq<char>>>,
}

pub enum ComponentBodyView {
    Nix(NixComponentView),
    Vendored(cyclonedx_bom::models::component::Component),
}

pub struct ComponentView {
    pub bom_ref: Option<Seq<char>>,
    pub name: Seq<char>,
    pub purl: Option<Seq<char>>,
    pub body: ComponentBodyView,
}

impl View for ComponentHash {
    type V = HashView;

    open spec fn view(&self) -> HashView {
        HashView { alg: self.alg, content: self.content@ }
    }
}

pub open spec fn hashes_view(v: Seq<ComponentHash>) -> Seq<HashView> {
    v.map_values(|h: ComponentHash| h@)
}

pub open spec fn opt_hashes_view(o: Option<Vec<ComponentHash>>) -> Option<Seq<HashView>> {
    match o {
        Some(v) => Some(hashes_view(v@)),
        None => None,
    }
}

impl View for ExternalReference {
    type V = ExternalReferenceView;

    open spec fn view(&self) -> ExternalReferenceView {
        ExternalReferenceView {
            reference_type: self.reference_type,
            url: self.url@,
            hashes: opt_hashes_view(self.hashes),
        }
    }
}

pub open spec fn references_view(v: Seq<ExternalReference>) -> Seq<ExternalReferenceView> {
    v.map_values(|e: ExternalReference| e@)
}

impl View for LicenseChoice {
    type V = LicenseChoiceView;

    open spec fn view(&self) -> LicenseChoiceView {
        match self {
            LicenseChoice::SpdxId(s) => LicenseChoiceView::SpdxId(s@),
            LicenseChoice::Named(s) => LicenseChoiceView::Named(s@),
            LicenseChoice::Expression(s) => LicenseChoiceView::Expression(s@),
        }
    }
}

pub open spec fn choices_view(v: Seq<LicenseChoice>) -> Seq<LicenseChoiceView> {
    v.map_values(|l: LicenseChoice| l@)
}

pub struct EvidenceMethodView {
    pub technique: Seq<char>,
    pub value: Option<Seq<char>>,
}

impl View for EvidenceMethod {
    type V = EvidenceMethodView;

    open spec fn view(&self) -> EvidenceMethodView {
        EvidenceMethodView { technique: self.technique@, value: opt_view(self.value) }
    }
}

pub open spec fn methods_view(v: Seq<EvidenceMethod>) -> Seq<EvidenceMethodView> {
    v.map_values(|m: EvidenceMethod| m@)
}

pub open spec fn opt_methods_view(o: Option<Vec<EvidenceMethod>>) -> Option<Seq<EvidenceMethodView>> {
    match o {
        Some(v) => Some(methods_view(v@)),
        None => None,
    }
}

impl View for NixComponent {
    type V = NixComponentView;

    open spec fn view(&self) -> NixComponentView {
        NixComponentView {
            version: self.version@,
            scope: self.scope,
            hashes: opt_hashes_view(self.hashes),
            licenses: match self.licenses {
                Some(v) => Some(choices_view(v@)),
                None => None,
            },
            description: opt_view(self.description),
            cpe: opt_view(self.cpe),
            evidence: opt_methods_view(self.evidence),
            external_references: match self.external_references {
                Some(v) => Some(references_view(v@)),
                None => None,
            },
            patches: match self.patches {
                Some(v) => Some(str_views(v@)),
                None => None,
            },
        }
    }
}

impl View for CycloneDXComponent {
    type V = ComponentView;

    open spec fn view(&self) -> ComponentView {
        ComponentView {
            bom_ref: opt_view(self.bom_ref),
            name: self.name@,
            purl: opt_view(self.purl),
            body: match self.body {
                ComponentBody::Nix(n) => ComponentBodyView::Nix(n@),
                ComponentBody::Vendored(c) => ComponentBodyView::Vendored(c),
            },
        }
    }
}

/// The package URL of a Nix package as the `cyclonedx-bom` crate writes it.
pub uninterp spec fn nix_purl(name: Seq<char>, version: Seq<char>) -> Seq<char>;

/// Calls `cyclonedx_bom::external_models::uri::Purl::new` for the package type `nix`, and
/// writes the result out. Claimed, as its source shows: it fails exactly where the name is
/// empty; otherwise the text is `nix_purl(name, version)`.
#[verifier::external_body]
pub(crate) fn purl_of(name: &str, version: &str) -> (r: Option<String>)
    ensures
        (r is Some) <==> name@.len() > 0,
        r matches Some(p) ==> p@ == nix_purl(name@, version@),
{
    cyclonedx_bom::external_models::uri::Purl::new("nix", name, version).ok().map(|p| p.to_string())
}

/// The package URL of a Nix package, where it has one.
pub open spec fn purl_for(name: Seq<char>, version: Seq<char>) -> Option<Seq<char>> {
    if name.len() > 0 {
        Some(nix_purl(name, version))
    } else {
        None
    }
}

pub open spec fn hash_algorithm(a: Algorithm) -> HashAlgorithm {
    match a {
        Algorithm::Md5 => HashAlgorithm::Md5,
        Algorithm::Sha1 => HashAlgorithm::Sha1,
        Algorithm::Sha256 => HashAlgorithm::Sha256,
        Algorithm::Sha512 => HashAlgorithm::Sha512,
    }
}

/// The hashes that a subresource-integrity text converts to; none where it is not one.
pub open spec fn converted_hash(s: Seq<char>) -> Option<Seq<HashView>> {
    match sri_parse(s) {
        Ok((a, d)) => Some(seq![HashView { alg: hash_algorithm(a), content: lower_hex(d) }]),
        Err(_) => None,
    }
}

pub open spec fn opt_converted_hash(s: Option<Seq<char>>) -> Option<Seq<HashView>> {
    match s {
        Some(x) => converted_hash(x),
        None => None,
    }
}

pub open spec fn license_choice(l: LicenseView) -> LicenseChoiceView {
    match l.spdx_id {
        Some(id) => LicenseChoiceView::SpdxId(id),
        None => LicenseChoiceView::Named(l.full_name),
    }
}

/// The SPDX expression of a single license: its identifier, else its name.
pub open spec fn license_expression(l: LicenseView) -> Seq<char> {
    match l.spdx_id {
        Some(id) => id,
        None => l.full_name,
    }
}

/// The licenses of a derivation's meta field: a list license by license; a single license as
/// one SPDX expression, so that compound licenses fit; a bare string gives none.
pub open spec fn converted_licenses(m: MetaView) -> Option<Seq<LicenseChoiceView>> {
    match m.license {
        Some(LicenseFieldView::LicenseList(l)) => Some(l.map_values(|x: LicenseView| license_choice(x))),
        Some(LicenseFieldView::License(l)) => Some(seq![LicenseChoiceView::Expression(license_expression(l))]),
        Some(LicenseFieldView::String(_)) => None,
        None => None,
    }
}

/// The source URLs of a derivation as version-control references.
pub open spec fn src_references(s: SrcView) -> Seq<ExternalReferenceView> {
    s.urls.map_values(
        |u: Seq<char>| ExternalReferenceView { reference_type: ExternalReferenceType::Vcs, url: u, hashes: opt_converted_hash(s.hash) },
    )
}

pub open spec fn homepage_reference(h: Seq<char>) -> ExternalReferenceView {
    ExternalReferenceView { reference_type: ExternalReferenceType::Website, url: h, hashes: None }
}

/// The external references of a derivation: its sources, then its homepage.
pub open spec fn derivation_references(d: DerivationView) -> Seq<ExternalReferenceView> {
    let from_src = match d.src {
        Some(s) => if s.urls.len() > 0 { src_references(s) } else { Seq::empty() },
        None => Seq::empty(),
    };
    let from_meta = match d.meta {
        Some(m) => match m.homepage {
            Some(h) => seq![homepage_reference(h)],
            None => Seq::empty(),
        },
        None => Seq::empty(),
    };
    from_src + from_meta
}

/// The technique by which possible CPEs are found: they are read from the package definition.
pub open spec fn manifest_analysis() -> Seq<char> {
    seq!['m', 'a', 'n', 'i', 'f', 'e', 's', 't', '-', 'a', 'n', 'a', 'l', 'y', 's', 'i', 's']
}

pub open spec fn cpe_method(c: Option<Seq<char>>) -> EvidenceMethodView {
    EvidenceMethodView { technique: manifest_analysis(), value: c }
}

/// The possible CPEs of a derivation as evidence, each found by manifest analysis; none where
/// there are none.
pub open spec fn cpe_evidence(v: Seq<Option<Seq<char>>>) -> Option<Seq<EvidenceMethodView>> {
    if v.len() == 0 {
        None
    } else {
        Some(v.map_values(|c: Option<Seq<char>>| cpe_method(c)))
    }
}

pub open spec fn component_name(d: DerivationView) -> Seq<char> {
    match d.pname {
        Some(p) => p,
        None => match d.name {
            Some(n) => n,
            None => Seq::empty(),
        },
    }
}

pub open spec fn component_version(d: DerivationView) -> Seq<char> {
    match d.version {
        Some(v) => v,
        None => Seq::empty(),
    }
}

/// The component that a derivation becomes.
pub open spec fn component_of(d: DerivationView) -> ComponentView {
    let name = component_name(d);
    let version = component_version(d);
    let refs = derivation_references(d);
    ComponentView {
        bom_ref: Some(bom_ref_of(d.path)),
        name,
        purl: purl_for(name, version),
        body: ComponentBodyView::Nix(NixComponentView {
            version,
            scope: Some(Scope::Required),
            hashes: opt_converted_hash(d.output_hash),
            licenses: match d.meta {
                Some(m) => converted_licenses(m),
                None => None,
            },
            description: match d.meta {
                Some(m) => m.description,
                None => None,
            },
            cpe: match d.meta {
                Some(m) => match m.identifiers {
                    Some(i) => i.cpe,
                    None => None,
                },
                None => None,
            },
            evidence: match d.meta {
                Some(m) => match m.identifiers {
                    Some(i) => if i.cpe is Some {
                        None
                    } else {
                        match i.possible_cpes {
                            Some(v) => cpe_evidence(v),
                            None => None,
                        }
                    },
                    None => None,
                },
                None => None,
            },
            external_references: if refs.len() == 0 { None } else { Some(refs) },
            patches: if d.patches.len() == 0 { None } else { Some(d.patches) },
        }),
    }
}

/// A derivation whose sources can be written out: where it has source URLs, none is empty.
pub open spec fn sources_valid(d: DerivationView) -> bool {
    match d.src {
        Some(s) => s.urls.len() > 0 ==> forall|i: int| 0 <= i < s.urls.len() ==> (#[trigger] s.urls[i]).len() > 0,
        None => true,
    }
}

fn convert_algorithm(a: Algorithm) -> (r: HashAlgorithm)
    ensures
        r == hash_algorithm(a),
{
    match a {
        Algorithm::Md5 => HashAlgorithm::Md5,
        Algorithm::Sha1 => HashAlgorithm::Sha1,
        Algorithm::Sha256 => HashAlgorithm::Sha256,
        Algorithm::Sha512 => HashAlgorithm::Sha512,
    }
}

/// Converts a subresource-integrity hash; if it is not one, there is no hash.
pub fn convert_hash(s: &str) -> (r: Option<Vec<ComponentHash>>)
    ensures
        opt_hashes_view(r) == converted_hash(s@),
{
    match SriHash::from_str(s) {
        Ok(sri) => {
            let h = ComponentHash { alg: convert_algorithm(sri.algorithm), content: sri.hex_digest() };
            let mut v: Vec<ComponentHash> = Vec::new();
            v.push(h);
            assert(hashes_view(v@) =~= seq![HashView { alg: hash_algorithm(sri.algorithm), content: lower_hex(sri.digest@) }]);
            Some(v)
        },
        Err(_) => None,
    }
}

fn convert_opt_hash(s: &Option<String>) -> (r: Option<Vec<ComponentHash>>)
    ensures
        opt_hashes_view(r) == opt_converted_hash(opt_view(*s)),
{
    match s {
        Some(x) => convert_hash(x.as_str()),
        None => None,
    }
}

pub fn convert_license(license: &License) -> (r: LicenseChoice)
    ensures
        r@ == license_choice(license@),
{
    match &license.spdx_id {
        Some(id) => LicenseChoice::SpdxId(id.clone()),
        None => LicenseChoice::Named(license.full_name.clone()),
    }
}

/// Convert licenses from a derivation's meta field.
///
/// Converts a list of licenses license by license. Converts a single license to an SPDX
/// expression to be able to accommodate compound license types.
pub fn convert_licenses(meta: &Meta) -> (r: Option<Vec<LicenseChoice>>)
    ensures
        match r {
            Some(v) => converted_licenses(meta@) == Some(choices_view(v@)),
            None => converted_licenses(meta@) is None,
        },
{
    match &meta.license {
        Some(LicenseField::LicenseList(list)) => {
            let mut v: Vec<LicenseChoice> = Vec::new();
            let mut i: usize = 0;
            while i < list.0.len()
                invariant
                    i <= list.0@.len(),
                    v@.len() == i,
                    forall|j: int| 0 <= j < i ==> (#[trigger] v@[j])@ == license_choice(list.0@[j]@),
                decreases list.0@.len() - i,
            {
                v.push(convert_license(&list.0[i]));
                i = i + 1;
            }
            assert(choices_view(v@) =~= crate::derivation::license_views(list.0@).map_values(|x: LicenseView| license_choice(x)));
            Some(v)
        },
        Some(LicenseField::License(l)) => {
            let expression = match &l.spdx_id {
                Some(id) => id.clone(),
                None => l.full_name.clone(),
            };
            let mut v: Vec<LicenseChoice> = Vec::new();
            v.push(LicenseChoice::Expression(expression));
            assert(choices_view(v@) =~= seq![LicenseChoiceView::Expression(license_expression(l@))]);
            Some(v)
        },
        Some(LicenseField::String(_)) => None,
        None => None,
    }
}

/// The possible CPEs as evidence, each found by manifest analysis; none where there are none.
pub fn cpes_to_evidence(possible_cpes: &Vec<Cpe>) -> (r: Option<Vec<EvidenceMethod>>)
    ensures
        opt_methods_view(r) == cpe_evidence(cpe_views(possible_cpes@)),
{
    if possible_cpes.len() == 0 {
        return None;
    }
    proof {
        reveal_strlit("manifest-analysis");
    }
    let mut v: Vec<EvidenceMethod> = Vec::new();
    let mut i: usize = 0;
    while i < possible_cpes.len()
        invariant
            i <= possible_cpes@.len(),
            v@.len() == i,
            "manifest-analysis"@ == manifest_analysis(),
            forall|j: int| 0 <= j < i ==> (#[trigger] v@[j])@ == cpe_method(opt_view(possible_cpes@[j].cpe)),
        decreases possible_cpes@.len() - i,
    {
        // Because we extract this information from the package definition.
        v.push(EvidenceMethod { technique: "manifest-analysis".to_owned(), value: clone_opt_str(&possible_cpes[i].cpe) });
        i = i + 1;
    }
    assert(methods_view(v@) =~= cpe_views(possible_cpes@).map_values(|c: Option<Seq<char>>| cpe_method(c)));
    Some(v)
}

/// The source URLs as version-control references.
pub fn convert_src(src: &Src) -> (r: Vec<ExternalReference>)
    requires
        src.urls@.len() > 0,
        forall|i: int| 0 <= i < src.urls@.len() ==> (#[trigger] src.urls@[i])@.len() > 0,
    ensures
        references_view(r@) == src_references(src@),
{
    let mut v: Vec<ExternalReference> = Vec::new();
    let mut i: usize = 0;
    while i < src.urls.len()
        invariant
            i <= src.urls@.len(),
            v@.len() == i,
            forall|j: int| 0 <= j < i ==> (#[trigger] v@[j])@ == (ExternalReferenceView {
                reference_type: ExternalReferenceType::Vcs,
                url: src.urls@[j]@,
                hashes: opt_converted_hash(opt_view(src.hash)),
            }),
        decreases src.urls@.len() - i,
    {
        v.push(ExternalReference {
            reference_type: ExternalReferenceType::Vcs,
            url: src.urls[i].clone(),
            hashes: convert_opt_hash(&src.hash),
        });
        i = i + 1;
    }
    assert(references_view(v@) =~= src_references(src@));
    v
}

pub fn convert_homepage(homepage: &str) -> (r: ExternalReference)
    ensures
        r@ == homepage_reference(homepage@),
{
    ExternalReference {
        reference_type: ExternalReferenceType::Website,
        url: homepage.to_owned(),
        hashes: None,
    }
}

impl CycloneDXComponent {
    /// The component that a derivation becomes.
    pub fn from_derivation(derivation: Derivation) -> (r: Self)
        requires
            sources_valid(derivation@),
        ensures
            r@ == component_of(derivation@),
    {
        let ghost dv = derivation@;
        let name = match &derivation.pname {
            Some(pname) => pname.clone(),
            None => match &derivation.name {
                Some(n) => n.clone(),
                None => String::new(),
            },
        };
        let version = match &derivation.version {
            Some(v) => v.clone(),
            None => String::new(),
        };
        let purl = purl_of(name.as_str(), version.as_str());
        let hashes = convert_opt_hash(&derivation.output_hash);

        let mut external_references: Vec<ExternalReference> = Vec::new();
        match &derivation.src {
            Some(src) => {
                if src.urls.len() > 0 {
                    assert forall|i: int| 0 <= i < src.urls@.len() implies (#[trigger] src.urls@[i])@.len() > 0 by {
                        assert(str_views(src.urls@)[i] == src.urls@[i]@);
                    }
                    let mut refs = convert_src(src);
                    external_references.append(&mut refs);
                }
            },
            None => {},
        }
        let ghost src_part = references_view(external_references@);
        let mut licenses: Option<Vec<LicenseChoice>> = None;
        let mut description: Option<String> = None;
        let mut cpe: Option<String> = None;
        let mut evidence: Option<Vec<EvidenceMethod>> = None;
        match &derivation.meta {
            Some(meta) => {
                licenses = convert_licenses(meta);
                description = clone_opt_str(&meta.description);
                match &meta.identifiers {
                    Some(identifiers) => {
                        match &identifiers.cpe {
                            Some(c) => {
                                cpe = Some(c.clone());
                            },
                            None => match &identifiers.possible_cpes {
                                Some(possible) => {
                                    evidence = cpes_to_evidence(possible);
                                },
                                None => {},
                            },
                        }
                    },
                    None => {},
                }
                match &meta.homepage {
                    Some(homepage) => {
                        external_references.push(convert_homepage(homepage.as_str()));
                    },
                    None => {},
                }
            },
            None => {},
        }
        assert(references_view(external_references@) =~= derivation_references(dv));
        let external_references = if external_references.len() == 0 {
            None
        } else {
            Some(external_references)
        };
        let patches = if derivation.patches.len() == 0 {
            None
        } else {
            Some(clone_strs(&derivation.patches))
        };
        let body = NixComponent {
            version,
            scope: Some(Scope::Required),
            hashes,
            licenses,
            description,
            cpe,
            evidence,
            external_references,
            patches,
        };
        CycloneDXComponent { bom_ref: Some(bom_ref(derivation.path.as_str())), name, purl, body: ComponentBody::Nix(body) }
    }
}

impl CycloneDXComponents {
    /// The components that a list of derivations becomes, in order.
    pub fn from_derivations(derivations: Vec<Derivation>) -> (r: Self)
        requires
            forall|i: int| 0 <= i < derivations@.len() ==> sources_valid((#[trigger] derivations@[i])@),
        ensures
            r.0@.len() == derivations@.len(),
            forall|i: int| 0 <= i < derivations@.len() ==> (#[trigger] r.0@[i])@ == component_of(derivations@[i]@),
    {
        let ghost ds = derivations@;
        let mut v: Vec<CycloneDXComponent> = Vec::new();
        for d in it: derivations
            invariant
                it.seq() == ds,
                v@.len() == it.index(),
                forall|i: int| 0 <= i < ds.len() ==> sources_valid((#[trigger] ds[i])@),
                forall|i: int| 0 <= i < v@.len() ==> (#[trigger] v@[i])@ == component_of(ds[i]@),
        {
            v.push(CycloneDXComponent::from_derivation(d));
        }
        CycloneDXComponents(v)
    }
}

/// Whether a derivation's sources can be written out: where it has source URLs, none is empty.
pub fn sources_are_valid(derivation: &Derivation) -> (r: bool)
    ensures
        r == sources_valid(derivation@),
{
    match &derivation.src {
        Some(src) => {
            let mut i: usize = 0;
            while i < src.urls.len()
                invariant
                    derivation@.src == Some(src@),
                    i <= src.urls@.len(),
                    forall|j: int| 0 <= j < i ==> (#[trigger] str_views(src.urls@)[j]).len() > 0,
                decreases src.urls@.len() - i,
            {
                if src.urls[i].unicode_len() == 0 {
                    assert(str_views(src.urls@)[i as int] == src.urls@[i as int]@);
                    return false;
                }
                i = i + 1;
            }
            true
        },
        None => true,
    }
}

/// The name by which subresource-integrity hashes write an algorithm.
pub open spec fn algorithm_text(a: HashAlgorithm) -> Seq<char> {
    match a {
        HashAlgorithm::Md5 => seq!['m', 'd', '5'],
        HashAlgorithm::Sha1 => seq!['s', 'h', 'a', '1'],
        HashAlgorithm::Sha256 => seq!['s', 'h', 'a', '2', '5', '6'],
        HashAlgorithm::Sha512 => seq!['s', 'h', 'a', '5', '1', '2'],
    }
}

/// A converted hash keeps the algorithm that the hash text names and the digest it carries: it
/// is one hash, whose algorithm is the one the text's first `-`-separated field names, and
/// whose content has two hex digits for each byte of the decoded digest. Different algorithms
/// stay different.
pub proof fn lemma_converted_hash_algorithm(s: Seq<char>)
    ensures
        match converted_hash(s) {
            Some(hs) => {
                &&& hs.len() == 1
                &&& algorithm_text(hs[0].alg) == first_field(trimmed(s))
                &&& sri_parse(s) matches Ok((_, d)) && hs[0].content.len() == 2 * d.len()
            },
            None => sri_parse(s) is Err,
        },
        forall|a: Algorithm, b: Algorithm| hash_algorithm(a) == hash_algorithm(b) ==> a == b,
{
    match sri_parse(s) {
        Ok((a, d)) => {
            crate::hash::lemma_lower_hex(d);
        },
        Err(_) => {},
    }
}

} // verus!
