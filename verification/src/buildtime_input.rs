//! The build-time input: every derivation that the target was built from, by store path.
use vstd::prelude::*;

use crate::derivation::Derivation;
use crate::strmap::StrMap;

verus! {

/// `k` is the last of the first `n` derivations whose path is `x`.
pub open spec fn last_with_path(ds: Seq<Derivation>, n: int, x: Seq<char>, k: int) -> bool {
    &&& 0 <= k < n
    &&& ds[k].path@ == x
    &&& forall|j: int| k < j < n ==> (#[trigger] ds[j]).path@ != x
}

/// The derivations of the build-time input, keyed by their store paths.
pub struct BuildtimeInput(pub StrMap<Derivation>);

impl BuildtimeInput {
    pub open spec fn wf(self) -> bool {
        self.0.wf()
    }

    /// Keys the derivations by store path; of two with one path, the later is kept.
    pub fn from_derivations(derivations: Vec<Derivation>) -> (r: Self)
        ensures
            r.wf(),
            forall|x: Seq<char>| #[trigger] r.0.has(x) <==> exists|i: int| 0 <= i < derivations@.len() && derivations@[i].path@ == x,
            forall|k: int| #[trigger] last_with_path(derivations@, derivations@.len() as int, derivations@[k].path@, k)
                ==> r.0.value_of(derivations@[k].path@) == derivations@[k],
    {
        let ghost ds = derivations@;
        let mut m: StrMap<Derivation> = StrMap::new();
        for d in it: derivations
            invariant
                it.seq() == ds,
                m.wf(),
                forall|x: Seq<char>| #[trigger] m.has(x) <==> exists|i: int| 0 <= i < it.index() && ds[i].path@ == x,
                forall|k: int| #[trigger] last_with_path(ds, it.index() as int, ds[k].path@, k)
                    ==> m.value_of(ds[k].path@) == ds[k],
        {
            let ghost idx = it.index() as int;
            let ghost old_map = m.to_map();
            let key = d.path.clone();
            m.insert(key, d);
            assert forall|x: Seq<char>| #[trigger] m.has(x) <==> exists|i: int| 0 <= i < idx + 1 && ds[i].path@ == x by {
                assert(m.to_map().dom().contains(x) == m.has(x));
                if x == ds[idx].path@ {
                    assert(0 <= idx < idx + 1 && ds[idx].path@ == x);
                }
            }
            assert forall|k: int| #[trigger] last_with_path(ds, idx + 1, ds[k].path@, k)
                implies m.value_of(ds[k].path@) == ds[k] by {
                let x = ds[k].path@;
                assert(m.to_map()[x] == m.value_of(x));
                if k < idx {
                    assert(last_with_path(ds, idx, x, k));
                    assert(old_map[x] == ds[k]);
                }
            }
        }
        BuildtimeInput(m)
    }
}

} // verus!
