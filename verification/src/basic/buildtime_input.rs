//! The build-time input of the basic transformer: a list of derivations.
use vstd::prelude::*;

pub use crate::derivation::{License, LicenseField, LicenseFieldView, LicenseList};
use crate::text::{key_equal, opt_view};

verus! {

/// The build-time input: every derivation that the target was built from.
pub struct BuildtimeInput(pub Vec<Derivation>);

pub struct Derivation {
    pub path: String,
    pub name: Option<String>,
    pub pname: Option<String>,
    pub version: Option<String>,
    pub meta: Option<Meta>,
}

pub struct Meta {
    pub license: Option<LicenseField>,
    pub homepage: Option<String>,
}

pub struct MetaView {
    pub license: Option<LicenseFieldView>,
    pub homepage: Option<Seq<char>>,
}

pub struct DerivationView {
    pub path: Seq<char>,
    pub name: Option<Seq<char>>,
    pub pname: Option<Seq<char>>,
    pub version: Option<Seq<char>>,
    pub meta: Option<MetaView>,
}

impl View for Meta {
    type V = MetaView;

    open spec fn view(&self) -> MetaView {
        MetaView {
            license: match self.license {
                Some(l) => Some(l@),
                None => None,
            },
            homepage: opt_view(self.homepage),
        }
    }
}

impl View for Derivation {
    type V = DerivationView;

    open spec fn view(&self) -> DerivationView {
        DerivationView {
            path: self.path@,
            name: opt_view(self.name),
            pname: opt_view(self.pname),
            version: opt_view(self.version),
            meta: match self.meta {
                Some(m) => Some(m@),
                None => None,
            },
        }
    }
}

/// Derivations count as equal where their names are: different outputs of one derivation have
/// different paths, so the name is the best proxy to detect duplicates.
impl PartialEq for Derivation {
    fn eq(&self, other: &Self) -> (r: bool) {
        match (&self.name, &other.name) {
            (Some(a), Some(b)) => key_equal(a.as_str(), b.as_str()),
            (None, None) => true,
            _ => false,
        }
    }
}

impl vstd::std_specs::cmp::PartialEqSpecImpl for Derivation {
    open spec fn obeys_eq_spec() -> bool {
        true
    }

    open spec fn eq_spec(&self, other: &Derivation) -> bool {
        opt_view(self.name) == opt_view(other.name)
    }
}

impl Eq for Derivation {}

/// The first index of a derivation with the given path.
pub open spec fn first_with_path(ds: Seq<Derivation>, path: Seq<char>, i: int) -> bool {
    &&& 0 <= i < ds.len()
    &&& ds[i].path@ == path
    &&& forall|j: int| 0 <= j < i ==> (#[trigger] ds[j]).path@ != path
}

impl BuildtimeInput {
    /// Takes the first derivation with the given path out of the input; the last one takes its place.
    pub fn remove_derivation(&mut self, derivation_path: &str) -> (r: Derivation)
        requires
            exists|i: int| 0 <= i < old(self).0@.len() && (#[trigger] old(self).0@[i]).path@ == derivation_path@,
        ensures
            exists|i: int| #[trigger] first_with_path(old(self).0@, derivation_path@, i)
                && r == old(self).0@[i]
                && final(self).0@ == old(self).0@.update(i, old(self).0@.last()).drop_last(),
    {
        let mut index: usize = 0;
        let mut found = false;
        while !found && index < self.0.len()
            invariant
                index <= self.0@.len(),
                found ==> index < self.0@.len() && self.0@[index as int].path@ == derivation_path@,
                forall|j: int| 0 <= j < index ==> (#[trigger] self.0@[j]).path@ != derivation_path@,
                exists|i: int| 0 <= i < self.0@.len() && (#[trigger] self.0@[i]).path@ == derivation_path@,
            decreases self.0@.len() - index, if found { 0int } else { 1int },
        {
            if key_equal(self.0[index].path.as_str(), derivation_path) {
                found = true;
            } else {
                index = index + 1;
            }
        }
        proof {
            if index == self.0@.len() {
                let i = choose|i: int| 0 <= i < self.0@.len() && (#[trigger] self.0@[i]).path@ == derivation_path@;
                assert(false);
            }
        }
        assert(first_with_path(self.0@, derivation_path@, index as int));
        self.0.swap_remove(index)
    }

    /// The derivations, in order.
    pub fn into_iter(self) -> (r: std::vec::IntoIter<Derivation>)
        ensures
            vstd::std_specs::iter::IteratorSpec::remaining(&r) == self.0@,
    {
        self.0.into_iter()
    }
}

} // verus!
