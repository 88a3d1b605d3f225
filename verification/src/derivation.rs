//! What the build-time input says about one derivation.
use vstd::prelude::*;

use crate::text::{
    clone_opt_str, clone_strs, find_char, find_last_char, is_numeric, lemma_char_index, lemma_last_char_index,
    opt_view, starts_with, store_dir, str_views, strip_prefix, char_index, last_char_index, is_number,
};

verus! {

/// A derivation as described by the build-time input.
pub struct Derivation {
    pub path: String,
    pub name: Option<String>,
    pub pname: Option<String>,
    pub version: Option<String>,
    pub meta: Option<Meta>,
    pub output_name: Option<String>,
    pub output_hash: Option<String>,
    pub src: Option<Src>,
    pub vendored_sbom: Option<String>,
    pub patches: Vec<String>,
    /// The store paths that this derivation was built from.
    pub build_references: Vec<String>,
}

pub struct Meta {
    pub license: Option<LicenseField>,
    pub homepage: Option<String>,
    pub description: Option<String>,
    pub identifiers: Option<Identifiers>,
}

pub struct Identifiers {
    pub cpe: Option<String>,
    pub possible_cpes: Option<Vec<Cpe>>,
}

pub struct Cpe {
    pub cpe: Option<String>,
}

pub enum LicenseField {
    LicenseList(LicenseList),
    License(License),
    /// In very rare cases the license is just a string.
    String(String),
}

pub struct LicenseList(pub Vec<License>);

pub struct License {
    pub full_name: String,
    pub spdx_id: Option<String>,
}

pub struct Src {
    pub urls: Vec<String>,
    pub hash: Option<String>,
}

/// The mathematical content of a [`Derivation`].
pub struct DerivationView {
    pub path: Seq<char>,
    pub name: Option<Seq<char>>,
    pub pname: Option<Seq<char>>,
    pub version: Option<Seq<char>>,
    pub meta: Option<MetaView>,
    pub output_name: Option<Seq<char>>,
    pub output_hash: Option<Seq<char>>,
    pub src: Option<SrcView>,
    pub vendored_sbom: Option<Seq<char>>,
    pub patches: Seq<Seq<char>>,
    pub build_references: Seq<Seq<char>>,
}

pub struct MetaView {
    pub license: Option<LicenseFieldView>,
    pub homepage: Option<Seq<char>>,
    pub description: Option<Seq<char>>,
    pub identifiers: Option<IdentifiersView>,
}

pub struct IdentifiersView {
    pub cpe: Option<Seq<char>>,
    pub possible_cpes: Option<Seq<Option<Seq<char>>>>,
}

pub enum LicenseFieldView {
    LicenseList(Seq<LicenseView>),
    License(LicenseView),
    String(Seq<char>),
}

pub struct LicenseView {
    pub full_name: Seq<char>,
    pub spdx_id: Option<Seq<char>>,
}

pub struct SrcView {
    pub urls: Seq<Seq<char>>,
    pub hash: Option<Seq<char>>,
}

impl View for License {
    type V = LicenseView;

    open spec fn view(&self) -> LicenseView {
        LicenseView { full_name: self.full_name@, spdx_id: opt_view(self.spdx_id) }
    }
}

pub open spec fn license_views(v: Seq<License>) -> Seq<LicenseView> {
    v.map_values(|l: License| l@)
}

impl View for LicenseField {
    type V = LicenseFieldView;

    open spec fn view(&self) -> LicenseFieldView {
        match self {
            LicenseField::LicenseList(l) => LicenseFieldView::LicenseList(license_views(l.0@)),
            LicenseField::License(l) => LicenseFieldView::License(l@),
            LicenseField::String(s) => LicenseFieldView::String(s@),
        }
    }
}

pub open spec fn cpe_views(v: Seq<Cpe>) -> Seq<Option<Seq<char>>> {
    v.map_values(|c: Cpe| opt_view(c.cpe))
}

impl View for Identifiers {
    type V = IdentifiersView;

    open spec fn view(&self) -> IdentifiersView {
        IdentifiersView {
            cpe: opt_view(self.cpe),
            possible_cpes: match self.possible_cpes {
                Some(v) => Some(cpe_views(v@)),
                None => None,
            },
        }
    }
}

impl View for Meta {
    type V = MetaView;

    open spec fn view(&self) -> MetaView {
        MetaView {
            license: match self.license {
                Some(l) => Some(l@),
                None => None,
            },
            homepage: opt_view(self.homepage),
            description: opt_view(self.description),
            identifiers: match self.identifiers {
                Some(i) => Some(i@),
                None => None,
            },
        }
    }
}

impl View for Src {
    type V = SrcView;

    open spec fn view(&self) -> SrcView {
        SrcView { urls: str_views(self.urls@), hash: opt_view(self.hash) }
    }
}

impl View for Derivation {
    type V = DerivationView;

    open spec fn view(&self) -> DerivationView {
        DerivationView {
            path: self.path@,
            name: opt_view(self.name),
            pname: opt_view(self.pname),
            version: opt_view(self.version),
            meta: match self.meta {
                Some(m) => Some(m@),
                None => None,
            },
            output_name: opt_view(self.output_name),
            output_hash: opt_view(self.output_hash),
            src: match self.src {
                Some(s) => Some(s@),
                None => None,
            },
            vendored_sbom: opt_view(self.vendored_sbom),
            patches: str_views(self.patches@),
            build_references: str_views(self.build_references@),
        }
    }
}

impl License {
    pub fn duplicate(&self) -> (r: Self)
        ensures
            r@ == self@,
    {
        License { full_name: self.full_name.clone(), spdx_id: clone_opt_str(&self.spdx_id) }
    }
}

pub fn duplicate_licenses(v: &Vec<License>) -> (r: Vec<License>)
    ensures
        license_views(r@) == license_views(v@),
{
    let mut r: Vec<License> = Vec::new();
    for i in 0..v.len()
        invariant
            r@.len() == i,
            i <= v@.len(),
            forall|j: int| 0 <= j < i ==> (#[trigger] r@[j])@ == v@[j]@,
    {
        r.push(v[i].duplicate());
    }
    assert(license_views(r@) =~= license_views(v@));
    r
}

impl LicenseField {
    pub fn duplicate(&self) -> (r: Self)
        ensures
            r@ == self@,
    {
        match self {
            LicenseField::LicenseList(l) => LicenseField::LicenseList(LicenseList(duplicate_licenses(&l.0))),
            LicenseField::License(l) => LicenseField::License(l.duplicate()),
            LicenseField::String(s) => LicenseField::String(s.clone()),
        }
    }
}

pub fn duplicate_cpes(v: &Vec<Cpe>) -> (r: Vec<Cpe>)
    ensures
        cpe_views(r@) == cpe_views(v@),
{
    let mut r: Vec<Cpe> = Vec::new();
    for i in 0..v.len()
        invariant
            r@.len() == i,
            i <= v@.len(),
            forall|j: int| 0 <= j < i ==> opt_view((#[trigger] r@[j]).cpe) == opt_view(v@[j].cpe),
    {
        r.push(Cpe { cpe: clone_opt_str(&v[i].cpe) });
    }
    assert(cpe_views(r@) =~= cpe_views(v@));
    r
}

impl Identifiers {
    pub fn duplicate(&self) -> (r: Self)
        ensures
            r@ == self@,
    {
        Identifiers {
            cpe: clone_opt_str(&self.cpe),
            possible_cpes: match &self.possible_cpes {
                Some(v) => Some(duplicate_cpes(v)),
                None => None,
            },
        }
    }
}

impl Meta {
    pub fn duplicate(&self) -> (r: Self)
        ensures
            r@ == self@,
    {
        Meta {
            license: match &self.license {
                Some(l) => Some(l.duplicate()),
                None => None,
            },
            homepage: clone_opt_str(&self.homepage),
            description: clone_opt_str(&self.description),
            identifiers: match &self.identifiers {
                Some(i) => Some(i.duplicate()),
                None => None,
            },
        }
    }
}

impl Src {
    pub fn duplicate(&self) -> (r: Self)
        ensures
            r@ == self@,
    {
        Src { urls: clone_strs(&self.urls), hash: clone_opt_str(&self.hash) }
    }
}

impl Derivation {
    /// A copy of this derivation.
    pub fn duplicate(&self) -> (r: Self)
        ensures
            r@ == self@,
    {
        Derivation {
            path: self.path.clone(),
            name: clone_opt_str(&self.name),
            pname: clone_opt_str(&self.pname),
            version: clone_opt_str(&self.version),
            meta: match &self.meta {
                Some(m) => Some(m.duplicate()),
                None => None,
            },
            output_name: clone_opt_str(&self.output_name),
            output_hash: clone_opt_str(&self.output_hash),
            src: match &self.src {
                Some(s) => Some(s.duplicate()),
                None => None,
            },
            vendored_sbom: clone_opt_str(&self.vendored_sbom),
            patches: clone_strs(&self.patches),
            build_references: clone_strs(&self.build_references),
        }
    }
}

/// The last `-`-separated field of a store path's base name.
pub open spec fn last_field(s: Seq<char>) -> Seq<char> {
    match last_char_index(s, '-') {
        Some(l) => s.skip(l + 1),
        None => s,
    }
}

/// The version that a store path's base name carries: its last field, if that begins with a digit.
pub open spec fn base_name_version(s: Seq<char>) -> Option<Seq<char>> {
    let last = last_field(s);
    if last.len() > 0 && is_number(last[0]) {
        Some(last)
    } else {
        None
    }
}

/// The name that a store path's base name carries: what lies between the hash and the version.
pub open spec fn base_name_name(s: Seq<char>) -> Seq<char> {
    let versioned = base_name_version(s) is Some;
    match char_index(s, '-') {
        None => if versioned { Seq::empty() } else { s },
        Some(f) => {
            let l = last_char_index(s, '-').unwrap();
            if versioned {
                if f == l { Seq::empty() } else { s.subrange(f + 1, l) }
            } else {
                s.skip(f + 1)
            }
        },
    }
}

/// What a store path alone tells of a derivation's name and version.
pub open spec fn store_path_name_version(p: Seq<char>) -> (Option<Seq<char>>, Option<Seq<char>>) {
    if starts_with(p, store_dir()) {
        let s = p.skip(store_dir().len() as int);
        (Some(base_name_name(s)), base_name_version(s))
    } else {
        (None, None)
    }
}

/// A derivation of which only the path, the name and the version are known.
pub open spec fn bare_derivation(path: Seq<char>, name: Option<Seq<char>>, version: Option<Seq<char>>) -> DerivationView {
    DerivationView {
        path,
        name,
        pname: None,
        version,
        meta: None,
        output_name: None,
        output_hash: None,
        src: None,
        vendored_sbom: None,
        patches: Seq::empty(),
        build_references: Seq::empty(),
    }
}

/// A text without `-`.
pub open spec fn dash_free(x: Seq<char>) -> bool {
    !x.contains('-')
}

/// What a store path tells of a derivation's name and version. Outside the store it tells
/// nothing. Inside it, with `s` the base name after the store directory, a name is always found,
/// and:
/// - a version, where there is one, is the last `-`-separated field of `s`: it holds no `-`,
///   begins with a digit, and ends `s`, right after a `-` or as all of `s`; the name is what lies
///   between the first field (the hash) and the `-` before the version, empty where nothing does;
/// - where there is none, no last field of `s` begins with a digit, and the name is `s` without
///   its first field and the `-` after it, or all of `s` where `s` has no `-`.
pub proof fn lemma_store_path_fields(p: Seq<char>)
    ensures
        !starts_with(p, store_dir()) ==> store_path_name_version(p) == (None::<Seq<char>>, None::<Seq<char>>),
        starts_with(p, store_dir()) ==> ({
            let s = p.skip(store_dir().len() as int);
            let name = store_path_name_version(p).0;
            let version = store_path_name_version(p).1;
            &&& name matches Some(n) && match version {
                Some(v) => {
                    let rest = if s.len() == v.len() { Seq::empty() } else { s.take(s.len() - v.len() - 1) };
                    &&& v.len() > 0 && is_number(v[0]) && dash_free(v)
                    &&& s.len() >= v.len() && s.skip(s.len() - v.len()) == v
                    &&& (s.len() == v.len() || s[s.len() - v.len() - 1] == '-')
                    &&& if dash_free(rest) {
                        n.len() == 0
                    } else {
                        exists|h: Seq<char>| #[trigger] dash_free(h) && rest == h + seq!['-'] + n
                    }
                },
                None => {
                    &&& forall|j: int| 0 <= j <= s.len() && (j == 0 || s[j - 1] == '-') && #[trigger] dash_free(s.skip(j))
                        ==> !(j < s.len() && is_number(s[j]))
                    &&& if dash_free(s) {
                        n == s
                    } else {
                        exists|h: Seq<char>| #[trigger] dash_free(h) && s == h + seq!['-'] + n
                    }
                },
            }
        }),
{
    if starts_with(p, store_dir()) {
        let s = p.skip(store_dir().len() as int);
        lemma_char_index(s, '-');
        lemma_last_char_index(s, '-');
        let last = last_field(s);
        let versioned = base_name_version(s) is Some;
        match char_index(s, '-') {
            None => {
                assert(last_char_index(s, '-') is None);
                assert(dash_free(s));
                assert(last == s);
                if versioned {
                    assert(s.skip(0) =~= s);
                    assert(s.take(s.len() - s.len()) =~= Seq::<char>::empty());
                } else {
                    assert forall|j: int| 0 <= j <= s.len() && (j == 0 || s[j - 1] == '-') && #[trigger] dash_free(s.skip(j))
                        implies !(j < s.len() && is_number(s[j])) by {
                        if j > 0 {
                            assert(s.contains(s[j - 1]));
                        }
                        assert(s.skip(0) =~= s);
                    }
                }
            },
            Some(f) => {
                let l = last_char_index(s, '-').unwrap();
                assert(last =~= s.skip(l + 1));
                assert(f <= l);
                assert(dash_free(last)) by {
                    if last.contains('-') {
                        let k = choose|k: int| 0 <= k < last.len() && last[k] == '-';
                        assert(s[l + 1 + k] == '-');
                    }
                }
                if versioned {
                    let v = last;
                    assert(s.len() - v.len() - 1 == l);
                    assert(s.skip(s.len() - v.len()) =~= v);
                    let rest = s.take(l);
                    if f == l {
                        assert(dash_free(rest)) by {
                            if rest.contains('-') {
                                let k = choose|k: int| 0 <= k < rest.len() && rest[k] == '-';
                                assert(s[k] == '-');
                            }
                        }
                    } else {
                        let h = s.take(f);
                        let n = s.subrange(f + 1, l);
                        assert(rest[f] == '-');
                        assert(rest.contains('-'));
                        assert(dash_free(h)) by {
                            if h.contains('-') {
                                let k = choose|k: int| 0 <= k < h.len() && h[k] == '-';
                                assert(s[k] == '-');
                            }
                        }
                        assert(rest =~= h + seq!['-'] + n);
                    }
                } else {
                    let h = s.take(f);
                    let n = s.skip(f + 1);
                    assert(s[f] == '-');
                    assert(s.contains('-'));
                    assert(dash_free(h)) by {
                        if h.contains('-') {
                            let k = choose|k: int| 0 <= k < h.len() && h[k] == '-';
                            assert(s[k] == '-');
                        }
                    }
                    assert(s =~= h + seq!['-'] + n);
                    assert forall|j: int| 0 <= j <= s.len() && (j == 0 || s[j - 1] == '-') && #[trigger] dash_free(s.skip(j))
                        implies !(j < s.len() && is_number(s[j])) by {
                        if j <= l {
                            assert(s.skip(j)[l - j] == '-');
                            assert(s.skip(j).contains('-'));
                        }
                        if j > l + 1 {
                            assert(s[j - 1] != '-');
                        }
                        if j == l + 1 && j < s.len() {
                            assert(last[0] == s[j]);
                        }
                    }
                }
            },
        }
    }
}

impl Derivation {
    /// Create a `Derivation` from a store path.
    ///
    /// This can be used if we don't have any information besides the path itself.
    pub fn from_store_path(store_path: &str) -> (r: Self)
        ensures
            r@ == bare_derivation(store_path@, store_path_name_version(store_path@).0, store_path_name_version(store_path@).1),
    {
        let mut name: Option<String> = None;
        let mut version: Option<String> = None;
        let dir = "/nix/store/";
        proof {
            reveal_strlit("/nix/store/");
        }
        assert(dir@ =~= store_dir());
        match strip_prefix(store_path, dir) {
            Some(s) => {
                let n = s.unicode_len();
                proof {
                    lemma_char_index(s@, '-');
                    lemma_last_char_index(s@, '-');
                }
                let last_start: usize = match find_last_char(s, '-') {
                    Some(l) => l + 1,
                    None => 0,
                };
                let last = s.substring_char(last_start, n);
                assert(last@ =~= last_field(s@));
                if last.unicode_len() > 0 {
                    if is_numeric(last.get_char(0)) {
                        version = Some(last.to_owned());
                    }
                }
                let versioned = version.is_some();
                assert(versioned == (base_name_version(s@) is Some));
                let nm: String = match find_char(s, '-') {
                    None => if versioned { String::new() } else { s.to_owned() },
                    Some(f) => {
                        let l = last_start - 1;
                        if versioned {
                            if f == l {
                                String::new()
                            } else {
                                s.substring_char(f + 1, l).to_owned()
                            }
                        } else {
                            s.substring_char(f + 1, n).to_owned()
                        }
                    },
                };
                assert(nm@ =~= base_name_name(s@));
                name = Some(nm);
            },
            None => {},
        }
        let r = Derivation {
            path: store_path.to_owned(),
            name,
            pname: None,
            version,
            meta: None,
            output_name: None,
            output_hash: None,
            src: None,
            vendored_sbom: None,
            patches: Vec::new(),
            build_references: Vec::new(),
        };
        assert(r@.patches =~= Seq::<Seq<char>>::empty());
        assert(r@.build_references =~= Seq::<Seq<char>>::empty());
        r
    }
}

impl LicenseField {
    /// The licenses of the field: a single license as a list of one; a bare string gives none.
    pub fn into_vec(self) -> (r: Vec<License>)
        ensures
            license_views(r@) == match self@ {
                LicenseFieldView::LicenseList(l) => l,
                LicenseFieldView::License(l) => seq![l],
                LicenseFieldView::String(_) => Seq::empty(),
            },
    {
        match self {
            LicenseField::LicenseList(license_list) => license_list.0,
            LicenseField::License(license) => {
                let ghost lv = license@;
                let mut v: Vec<License> = Vec::new();
                v.push(license);
                assert(license_views(v@) =~= seq![lv]);
                v
            },
            LicenseField::String(_) => {
                let v: Vec<License> = Vec::new();
                assert(license_views(v@) =~= Seq::<LicenseView>::empty());
                v
            },
        }
    }
}

} // verus!
