//! The two user-facing operations on the overlay file text: pin
//! (append a resolved package) and unpin (remove every package with a
//! given name).

use vstd::prelude::*;
use vstd::string::*;

use crate::pkg::Overlay;
use crate::pkg::Package;
use crate::pkg::PackageView;
use crate::store::parse;
use crate::store::render;
use crate::store::spec_parse;
use crate::store::spec_render;

verus! {

/// The predicate a package must meet to survive unpinning `name`: its
/// own name differs.
pub open spec fn keeps(name: Seq<char>) -> spec_fn(PackageView) -> bool {
    |p: PackageView| p.name != name
}

impl Package {
    /// A field-for-field copy.
    pub fn duplicate(&self) -> (r: Package)
        ensures
            r@ == self@,
    {
        Package { name: self.name.clone(), url: self.url.clone(), sha256: self.sha256.clone() }
    }
}

impl Overlay {
    /// Remove every package whose name equals `name`, keeping the rest
    /// in order; a name that is not present removes nothing.
    pub fn remove_name(&self, name: &str) -> (r: Overlay)
        ensures
            r@ == self@.filter(keeps(name@)),
    {
        let name_key = String::from_str(name);
        let n = self.packages.len();
        let mut kept: Vec<Package> = Vec::new();
        let mut i: usize = 0;
        proof {
            reveal(Seq::filter);
            assert(self@.take(0) =~= Seq::<PackageView>::empty());
            assert(kept.deep_view() =~= self@.take(0).filter(keeps(name@)));
        }
        while i < n
            invariant
                i <= n,
                n == self.packages.len(),
                name_key@ == name@,
                kept.deep_view() =~= self@.take(i as int).filter(keeps(name@)),
            decreases n - i,
        {
            let ghost before = kept.deep_view();
            if !(self.packages[i].name == name_key) {
                kept.push(self.packages[i].duplicate());
                proof {
                    assert(kept.deep_view() =~= before.push(self@[i as int]));
                }
            }
            proof {
                reveal(Seq::filter);
                let t = self@.take(i as int + 1);
                assert(t.drop_last() =~= self@.take(i as int));
                assert(t.last() == self@[i as int]);
                assert(t.filter(keeps(name@)) == if keeps(name@)(self@[i as int]) {
                    self@.take(i as int).filter(keeps(name@)).push(self@[i as int])
                } else {
                    self@.take(i as int).filter(keeps(name@))
                });
            }
            i = i + 1;
        }
        proof {
            assert(self@.take(n as int) =~= self@);
        }
        Overlay { packages: kept }
    }
}

/// Unpinning a name that no package carries changes nothing.
pub proof fn lemma_unpin_absent(ps: Seq<PackageView>, name: Seq<char>)
    requires
        forall|i: int| 0 <= i < ps.len() ==> (#[trigger] ps[i]).name != name,
    ensures
        ps.filter(keeps(name)) =~= ps,
    decreases ps.len(),
{
    reveal(Seq::filter);
    if ps.len() > 0 {
        assert(forall|i: int|
            0 <= i < ps.drop_last().len() ==> (#[trigger] ps.drop_last()[i]).name != name);
        lemma_unpin_absent(ps.drop_last(), name);
        assert(keeps(name)(ps.last()));
        assert(ps.drop_last().push(ps.last()) =~= ps);
    }
}

/// Pin: append the freshly resolved package to whatever the current file
/// text holds, and render the whole file anew. The package lands at the
/// end; nothing is reordered or deduplicated.
pub fn pin_text(current: &str, new_package: Package) -> (r: String)
    ensures
        r@ == spec_render(spec_parse(current@).push(new_package@)),
{
    let mut overlay = parse(current);
    overlay.push(new_package);
    render(&overlay)
}

/// Unpin: drop every package with the given name from the current file
/// text, and render the rest. Absent files read as empty text, so
/// unpinning from one writes the empty overlay.
pub fn unpin_text(current: &str, name: &str) -> (r: String)
    ensures
        r@ == spec_render(spec_parse(current@).filter(keeps(name@))),
{
    let overlay = parse(current);
    let kept = overlay.remove_name(name);
    render(&kept)
}

} // verus!
