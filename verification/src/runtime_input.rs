//! The runtime input: the runtime closure of the target and its reference graph.
use vstd::prelude::*;

use crate::strmap::{StrMap, StrSet};
use crate::text::{key_equal, str_views};

verus! {

/// One store path of the runtime closure with the store paths it references.
pub struct ClosureEntry {
    pub path: String,
    pub references: Vec<String>,
}

/// Whether a reference points to somewhere else than `path`.
pub open spec fn other_than(path: Seq<char>) -> spec_fn(Seq<char>) -> bool {
    |r: Seq<char>| r != path
}

/// The references of a store path, without the path itself.
pub open spec fn own_references(path: Seq<char>, refs: Seq<Seq<char>>) -> Seq<Seq<char>> {
    refs.filter(other_than(path))
}

/// `k` is the last of the first `n` entries whose path is `x`.
pub open spec fn last_entry_with_path(es: Seq<ClosureEntry>, n: int, x: Seq<char>, k: int) -> bool {
    &&& 0 <= k < n
    &&& es[k].path@ == x
    &&& forall|j: int| k < j < n ==> (#[trigger] es[j]).path@ != x
}

pub struct RuntimeInput {
    /// The set of store paths in the runtime closure.
    pub paths: StrSet,
    /// For each store path, its direct runtime references (self-references removed).
    pub references: StrMap<Vec<String>>,
}

/// The references of `path`, leaving out `path` itself.
fn references_without(path: &String, refs: &Vec<String>) -> (r: Vec<String>)
    ensures
        str_views(r@) == own_references(path@, str_views(refs@)),
{
    let ghost p = path@;
    let ghost pred = other_than(p);
    let mut out: Vec<String> = Vec::new();
    for i in 0..refs.len()
        invariant
            pred == other_than(p),
            p == path@,
            i <= refs@.len(),
            str_views(out@) == str_views(refs@).take(i as int).filter(pred),
    {
        proof {
            assert(str_views(refs@).take(i + 1) =~= str_views(refs@).take(i as int).push(refs@[i as int]@));
            str_views(refs@).take(i as int).lemma_filter_push(refs@[i as int]@, pred);
        }
        if !key_equal(refs[i].as_str(), path.as_str()) {
            out.push(refs[i].clone());
            assert(str_views(out@) =~= str_views(refs@).take(i as int).filter(pred).push(refs@[i as int]@));
        }
    }
    assert(str_views(refs@).take(refs@.len() as int) =~= str_views(refs@));
    out
}

impl RuntimeInput {
    pub open spec fn wf(self) -> bool {
        self.paths.wf() && self.references.wf()
    }

    /// Collects the store paths of the closure and their references; of two entries with one
    /// path, the later gives the references.
    pub fn from_entries(entries: Vec<ClosureEntry>) -> (r: Self)
        ensures
            r.wf(),
            forall|x: Seq<char>| #[trigger] r.paths.has(x) <==> exists|i: int| 0 <= i < entries@.len() && entries@[i].path@ == x,
            forall|x: Seq<char>| #[trigger] r.references.has(x) <==> exists|i: int| 0 <= i < entries@.len() && entries@[i].path@ == x,
            forall|k: int| #[trigger] last_entry_with_path(entries@, entries@.len() as int, entries@[k].path@, k)
                ==> str_views(r.references.value_of(entries@[k].path@)@)
                    == own_references(entries@[k].path@, str_views(entries@[k].references@)),
    {
        let ghost es = entries@;
        let mut paths = StrSet::new();
        let mut references: StrMap<Vec<String>> = StrMap::new();
        let mut i: usize = 0;
        while i < entries.len()
            invariant
                i <= es.len(),
                es == entries@,
                paths.wf(),
                references.wf(),
                forall|x: Seq<char>| #[trigger] paths.has(x) <==> exists|j: int| 0 <= j < i && es[j].path@ == x,
                forall|x: Seq<char>| #[trigger] references.has(x) <==> exists|j: int| 0 <= j < i && es[j].path@ == x,
                forall|k: int| #[trigger] last_entry_with_path(es, i as int, es[k].path@, k)
                    ==> str_views(references.value_of(es[k].path@)@)
                        == own_references(es[k].path@, str_views(es[k].references@)),
            decreases es.len() - i,
        {
            let e = &entries[i];
            let refs = references_without(&e.path, &e.references);
            let ghost refs_v = refs;
            let ghost old_map = references.to_map();
            let ghost old_refs = references;
            paths.insert(e.path.clone());
            references.insert(e.path.clone(), refs);
            assert forall|x: Seq<char>| #[trigger] paths.has(x) <==> exists|j: int| 0 <= j < i + 1 && es[j].path@ == x by {
                if x == es[i as int].path@ {
                    assert(0 <= i < i + 1 && es[i as int].path@ == x);
                }
            }
            assert forall|x: Seq<char>| #[trigger] references.has(x) <==> exists|j: int| 0 <= j < i + 1 && es[j].path@ == x by {
                assert(references.to_map().dom().contains(x) == references.has(x));
                if x == es[i as int].path@ {
                    assert(0 <= i < i + 1 && es[i as int].path@ == x);
                }
            }
            assert forall|k: int| #[trigger] last_entry_with_path(es, i + 1, es[k].path@, k)
                implies str_views(references.value_of(es[k].path@)@)
                    == own_references(es[k].path@, str_views(es[k].references@)) by {
                let x = es[k].path@;
                assert(references.to_map()[x] == references.value_of(x));
                if k == i {
                    assert(references.to_map()[x] == refs_v);
                    assert(references.value_of(x) == refs_v);
                    assert(str_views(refs_v@) == own_references(es[i as int].path@, str_views(es[i as int].references@)));
                }
                if k < i {
                    assert(last_entry_with_path(es, i as int, x, k));
                    assert(old_refs.has(x));
                    assert(old_map[x] == old_refs.value_of(x));
                    assert(old_map[x] == references.value_of(x));
                    assert(str_views(old_refs.value_of(x)@) == own_references(x, str_views(es[k].references@)));
                }
            }
            i = i + 1;
        }
        RuntimeInput { paths, references }
    }
}

/// No store path is listed among its own references.
pub proof fn lemma_no_self_reference(path: Seq<char>, refs: Seq<Seq<char>>)
    ensures
        !own_references(path, refs).contains(path),
{
    let own = own_references(path, refs);
    if own.contains(path) {
        let i = choose|i: int| 0 <= i < own.len() && own[i] == path;
        refs.lemma_filter_pred(other_than(path), i);
    }
}

} // verus!
