//! The whole document: metadata, components, dependencies and serial number.
use vstd::prelude::*;

use crate::component::{
    component_of, references_view, sources_valid, ComponentBodyView, ComponentView, ExternalReferenceView,
    LicenseChoiceView, NixComponentView,
};
use crate::cyclonedx::{
    ComponentBody, CycloneDXComponent, CycloneDXComponents, Dependency, ExternalReference, ExternalReferenceType,
    LicenseChoice, NixComponent,
};
use crate::dependencies::CycloneDXDependencies;
use crate::derivation::Derivation;
use crate::hash::{lemma_lower_hex, lower_hex};

verus! {

/// The version of this tool, as the document's metadata names it.
pub const VERSION: &'static str = "0.4.0";

/// What the `sha2` crate's SHA-256 gives for some data.
pub uninterp spec fn sha256_digest(data: Seq<u8>) -> Seq<u8>;

/// Calls `sha2::Sha256::digest`. Claimed: the digest is `sha256_digest(data)`, 32 bytes long.
#[verifier::external_body]
fn sha256(data: &[u8]) -> (r: Vec<u8>)
    ensures
        r@ == sha256_digest(data@),
        r@.len() == 32,
{
    <sha2::Sha256 as sha2::Digest>::digest(data).to_vec()
}

/// Sixteen bytes in the hyphenated form of a UUID: groups of 4, 2, 2, 2 and 6 bytes in
/// lower-case hex.
pub open spec fn hyphenated(b: Seq<u8>) -> Seq<char> {
    lower_hex(b.subrange(0, 4)) + seq!['-'] + lower_hex(b.subrange(4, 6)) + seq!['-'] + lower_hex(b.subrange(6, 8))
        + seq!['-'] + lower_hex(b.subrange(8, 10)) + seq!['-'] + lower_hex(b.subrange(10, 16))
}

/// Calls `uuid::Builder::from_bytes(..).into_uuid()` and writes the UUID out. Claimed, as the
/// crate documents its `Display`: the text is the hyphenated lower-case form of the bytes.
#[verifier::external_body]
fn uuid_text(bytes: [u8; 16]) -> (r: String)
    ensures
        r@ == hyphenated(bytes@),
{
    uuid::Builder::from_bytes(bytes).into_uuid().to_string()
}

pub open spec fn urn_uuid_prefix() -> Seq<char> {
    seq!['u', 'r', 'n', ':', 'u', 'u', 'i', 'd', ':']
}

/// A UUID URN: `urn:uuid:` followed by a UUID in hyphenated form.
pub open spec fn is_urn_uuid(s: Seq<char>) -> bool {
    exists|b: Seq<u8>| b.len() == 16 && s == urn_uuid_prefix() + hyphenated(b)
}

/// The serial number derived from some data: the first 16 bytes of its SHA-256 digest as a
/// UUID URN.
pub open spec fn serial_number_of(data: Seq<u8>) -> Seq<char> {
    urn_uuid_prefix() + hyphenated(sha256_digest(data).take(16))
}

/// Derive a serial number from some arbitrary data.
///
/// This data is hashed with SHA256 and the first 16 bytes are used to create a UUID to serve as a
/// serial number.
pub fn derive_serial_number(data: &[u8]) -> (r: String)
    ensures
        r@ == serial_number_of(data@),
        is_urn_uuid(r@),
        r@.len() == 45,
{
    let h = sha256(data);
    let bytes: [u8; 16] = [
        h[0], h[1], h[2], h[3], h[4], h[5], h[6], h[7], h[8], h[9], h[10], h[11], h[12], h[13], h[14], h[15],
    ];
    assert(bytes@ =~= sha256_digest(data@).take(16));
    let mut r = String::new();
    let prefix = "urn:uuid:";
    proof {
        reveal_strlit("urn:uuid:");
    }
    r.append(prefix);
    let text = uuid_text(bytes);
    r.append(text.as_str());
    assert(prefix@ =~= urn_uuid_prefix());
    assert(r@ =~= serial_number_of(data@));
    proof {
        let d = bytes@;
        lemma_lower_hex(d.subrange(0, 4));
        lemma_lower_hex(d.subrange(4, 6));
        lemma_lower_hex(d.subrange(6, 8));
        lemma_lower_hex(d.subrange(8, 10));
        lemma_lower_hex(d.subrange(10, 16));
        assert(r@ == urn_uuid_prefix() + hyphenated(d));
    }
    r
}

/// The component that describes this tool.
pub open spec fn tool_component() -> ComponentView {
    ComponentView {
        bom_ref: None,
        name: "bombon"@,
        purl: None,
        body: ComponentBodyView::Nix(NixComponentView {
            version: VERSION@,
            scope: None,
            hashes: None,
            licenses: Some(seq![LicenseChoiceView::SpdxId("MIT"@)]),
            description: Some("Nix CycloneDX Software Bills of Materials (SBOMs)"@),
            cpe: None,
            evidence: None,
            external_references: Some(seq![ExternalReferenceView {
                reference_type: ExternalReferenceType::Website,
                url: "https://github.com/nikstur/bombon"@,
                hashes: None,
            }]),
            patches: None,
        }),
    }
}

/// The tools that made the document: this one.
pub fn metadata_tools() -> (r: Vec<CycloneDXComponent>)
    ensures
        r@.len() == 1,
        r@[0]@ == tool_component(),
{
    let mut refs: Vec<ExternalReference> = Vec::new();
    refs.push(ExternalReference {
        reference_type: ExternalReferenceType::Website,
        url: "https://github.com/nikstur/bombon".to_owned(),
        hashes: None,
    });
    let mut licenses: Vec<LicenseChoice> = Vec::new();
    licenses.push(LicenseChoice::SpdxId("MIT".to_owned()));
    let c = CycloneDXComponent {
        bom_ref: None,
        name: "bombon".to_owned(),
        purl: None,
        body: ComponentBody::Nix(NixComponent {
            version: VERSION.to_owned(),
            scope: None,
            hashes: None,
            licenses: Some(licenses),
            description: Some("Nix CycloneDX Software Bills of Materials (SBOMs)".to_owned()),
            cpe: None,
            evidence: None,
            external_references: Some(refs),
            patches: None,
        }),
    };
    assert(c@ =~= tool_component()) by {
        assert(references_view(refs@) =~= seq![ExternalReferenceView {
            reference_type: ExternalReferenceType::Website,
            url: "https://github.com/nikstur/bombon"@,
            hashes: None,
        }]);
        assert(crate::component::choices_view(licenses@) =~= seq![LicenseChoiceView::SpdxId("MIT"@)]);
    }
    let mut v: Vec<CycloneDXComponent> = Vec::new();
    v.push(c);
    v
}

/// The metadata of the document: the tools that made it and the component that it describes.
pub struct Metadata {
    pub tools: Vec<CycloneDXComponent>,
    pub component: CycloneDXComponent,
}

pub fn metadata_from_derivation(derivation: Derivation) -> (r: Metadata)
    requires
        sources_valid(derivation@),
    ensures
        r.tools@.len() == 1,
        r.tools@[0]@ == tool_component(),
        r.component@ == component_of(derivation@),
{
    Metadata { tools: metadata_tools(), component: CycloneDXComponent::from_derivation(derivation) }
}

/// The document.
pub struct Bom {
    pub serial_number: String,
    pub metadata: Metadata,
    pub components: Vec<CycloneDXComponent>,
    /// The dependency graph, left out where it has no entries.
    pub dependencies: Option<Vec<Dependency>>,
}

pub struct CycloneDXBom(pub Bom);

impl CycloneDXBom {
    /// The document for a target, its components and their dependency graph; `output` is the
    /// path that it is written to, from which its serial number is derived.
    pub fn build(
        target: Derivation,
        components: CycloneDXComponents,
        dependencies: CycloneDXDependencies,
        output: &[u8],
    ) -> (r: Self)
        requires
            sources_valid(target@),
        ensures
            r.0.serial_number@ == serial_number_of(output@),
            is_urn_uuid(r.0.serial_number@),
            r.0.metadata.component@ == component_of(target@),
            r.0.metadata.tools@.len() == 1,
            r.0.metadata.tools@[0]@ == tool_component(),
            r.0.components@ == components.0@,
            match r.0.dependencies {
                Some(d) => dependencies.0@.len() > 0 && d@ == dependencies.0@,
                None => dependencies.0@.len() == 0,
            },
    {
        let deps = if dependencies.0.len() == 0 {
            None
        } else {
            Some(dependencies.0)
        };
        CycloneDXBom(Bom {
            serial_number: derive_serial_number(output),
            metadata: metadata_from_derivation(target),
            components: components.0,
            dependencies: deps,
        })
    }
}

/// The serial number is reproducible: the same output path gives the same serial number.
pub proof fn lemma_serial_number_reproducible(a: Seq<u8>, b: Seq<u8>)
    requires
        a == b,
    ensures
        serial_number_of(a) == serial_number_of(b),
{
}

} // verus!
