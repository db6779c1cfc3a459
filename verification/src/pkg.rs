//! The domain data: a pinned package and an overlay of packages.

use vstd::prelude::*;

verus! {

/// Mathematical model of a [`Package`]: the three fields as character
/// sequences.
#[verifier::ext_equal]
pub ghost struct PackageView {
    pub name: Seq<char>,
    pub url: Seq<char>,
    pub sha256: Seq<char>,
}

/// One pinned package: its name, the tarball URL of the exact revision,
/// and the content hash the prefetch tool reported for that tarball.
pub struct Package {
    pub name: String,
    pub url: String,
    pub sha256: String,
}

impl View for Package {
    type V = PackageView;

    open spec fn view(&self) -> PackageView {
        PackageView { name: self.name@, url: self.url@, sha256: self.sha256@ }
    }
}

impl DeepView for Package {
    type V = PackageView;

    open spec fn deep_view(&self) -> PackageView {
        self@
    }
}

impl Package {
    /// A field is storable in the prologue encoding when it holds neither a
    /// space (the token separator) nor a newline (the line separator).
    pub open spec fn wf_field(s: Seq<char>) -> bool {
        forall|i: int| 0 <= i < s.len() ==> s[i] != ' ' && s[i] != '\n'
    }

    /// A package round-trips through the overlay file exactly when every
    /// field is free of the encoding's separators.
    pub open spec fn wf(p: PackageView) -> bool {
        &&& Self::wf_field(p.name)
        &&& Self::wf_field(p.url)
        &&& Self::wf_field(p.sha256)
    }
}

/// The ordered list of pinned packages, insertion order preserved; names
/// need not be distinct.
pub struct Overlay {
    pub packages: Vec<Package>,
}

impl View for Overlay {
    type V = Seq<PackageView>;

    open spec fn view(&self) -> Seq<PackageView> {
        self.packages.deep_view()
    }
}

impl Overlay {
    /// An empty overlay, as an absent output file is read.
    pub fn new() -> (r: Overlay)
        ensures
            r@ == Seq::<PackageView>::empty(),
    {
        let o = Overlay { packages: Vec::new() };
        proof {
            assert(o@ =~= Seq::<PackageView>::empty());
        }
        o
    }

    /// Append a package at the end; nothing else moves.
    pub fn push(&mut self, p: Package)
        ensures
            final(self)@ == old(self)@.push(p@),
    {
        let ghost before = self@;
        let ghost pv = p@;
        self.packages.push(p);
        proof {
            assert(self@ =~= before.push(pv));
        }
    }
}

} // verus!
