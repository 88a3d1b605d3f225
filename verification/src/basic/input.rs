//! A build-time input without store paths: derivations by name, with SPDX identifiers.
use vstd::prelude::*;

use crate::text::{key_equal, opt_view, str_views};

verus! {

pub struct Input(pub Vec<Derivation>);

impl Input {
    /// The derivations, in order.
    pub fn into_iter(self) -> (r: std::vec::IntoIter<Derivation>)
        ensures
            vstd::std_specs::iter::IteratorSpec::remaining(&r) == self.0@,
    {
        self.0.into_iter()
    }
}

pub struct Derivation {
    pub name: Option<String>,
    pub pname: Option<String>,
    pub version: Option<String>,
    pub meta: Option<Meta>,
}

/// Derivations count as equal where their names are.
impl PartialEq for Derivation {
    fn eq(&self, other: &Self) -> (r: bool) {
        match (&self.name, &other.name) {
            (Some(a), Some(b)) => key_equal(a.as_str(), b.as_str()),
            (None, None) => true,
            _ => false,
        }
    }
}

impl vstd::std_specs::cmp::PartialEqSpecImpl for Derivation {
    open spec fn obeys_eq_spec() -> bool {
        true
    }

    open spec fn eq_spec(&self, other: &Derivation) -> bool {
        opt_view(self.name) == opt_view(other.name)
    }
}

impl Eq for Derivation {}

pub struct Meta {
    pub license: Option<LicenseField>,
    pub homepage: Option<String>,
}

pub enum LicenseField {
    LicenseList(LicenseList),
    License(License),
}

pub struct LicenseList(pub Vec<License>);

pub struct License {
    pub spdx_id: String,
}

pub open spec fn spdx_ids(v: Seq<License>) -> Seq<Seq<char>> {
    v.map_values(|l: License| l.spdx_id@)
}

impl LicenseField {
    /// The SPDX identifiers of the field's licenses.
    pub fn into_vec(self) -> (r: Vec<String>)
        ensures
            str_views(r@) == match self {
                LicenseField::LicenseList(l) => spdx_ids(l.0@),
                LicenseField::License(l) => seq![l.spdx_id@],
            },
    {
        match self {
            LicenseField::LicenseList(license_list) => {
                let ghost ls = license_list.0@;
                let mut v: Vec<String> = Vec::new();
                for license in it: license_list.0
                    invariant
                        it.seq() == ls,
                        str_views(v@) == spdx_ids(ls.take(it.index() as int)),
                {
                    let ghost before = str_views(v@);
                    let ghost k = it.index() as int;
                    assert(license == ls[k]);
                    v.push(license.spdx_id);
                    assert(spdx_ids(ls.take(k + 1)) =~= spdx_ids(ls.take(k)).push(ls[k].spdx_id@));
                    assert(str_views(v@) =~= before.push(ls[k].spdx_id@));
                }
                assert(ls.take(ls.len() as int) =~= ls);
                v
            },
            LicenseField::License(license) => {
                let ghost id = license.spdx_id@;
                let mut v: Vec<String> = Vec::new();
                v.push(license.spdx_id);
                assert(str_views(v@) =~= seq![id]);
                v
            },
        }
    }
}

} // verus!
