//! The hierarchical module-path model.
//!
//! A shader file's place in the source tree is a [`ModulePath`]: an origin tag
//! and an ordered list of non-empty path components. Paths are derived once by
//! the build walk and consumed by the codec, the compiler and the extensions.

use vstd::prelude::*;

use crate::chars::wf_word;

verus! {

/// Where a module path is anchored.
#[derive(Clone, Copy, Debug, PartialEq, Eq, Structural)]
pub enum PathOrigin {
    /// Anchored at the shader package root.
    Absolute,
    /// Relative to the current module within the package.
    PackageRelative,
}

/// A hierarchical module path: an origin and the directory components.
#[derive(Debug)]
pub struct ModulePath {
    pub origin: PathOrigin,
    pub components: Vec<String>,
}

/// The components of a module path, as sequences of characters.
pub open spec fn comps_view(components: Seq<String>) -> Seq<Seq<char>> {
    components.map(|i: int, s: String| s@)
}

/// All components are well-formed words.
pub open spec fn wf_comps(comps: Seq<Seq<char>>) -> bool {
    forall|i: int| 0 <= i < comps.len() ==> wf_word(#[trigger] comps[i])
}

/// A well-formed module path.
pub open spec fn wf_module_path(p: &ModulePath) -> bool {
    wf_comps(comps_view(p.components@))
}

impl ModulePath {
    /// The character sequences of the components.
    pub open spec fn comps(&self) -> Seq<Seq<char>> {
        comps_view(self.components@)
    }

    /// A path from an origin and its components.
    pub fn new(origin: PathOrigin, components: Vec<String>) -> (r: ModulePath)
        ensures
            r.origin == origin,
            r.components == components,
    {
        ModulePath { origin, components }
    }

    /// A copy of this path.
    pub fn duplicate(&self) -> (r: ModulePath)
        ensures
            r.origin == self.origin,
            r.components@.len() == self.components@.len(),
            forall|i: int|
                0 <= i < self.components@.len() ==> #[trigger] r.components@[i]@
                    == self.components@[i]@,
            r.comps() =~= self.comps(),
    {
        let mut components: Vec<String> = Vec::new();
        let mut i: usize = 0;
        while i < self.components.len()
            invariant
                0 <= i <= self.components@.len(),
                components@.len() == i,
                forall|k: int|
                    0 <= k < i ==> #[trigger] components@[k]@ == self.components@[k]@,
            decreases self.components@.len() - i,
        {
            components.push(self.components[i].clone());
            i = i + 1;
        }
        let r = ModulePath { origin: self.origin, components };
        proof {
            assert(r.comps() =~= self.comps());
        }
        r
    }
}

/// A copy of a list of strings, character for character.
pub fn clone_strings(v: &Vec<String>) -> (r: Vec<String>)
    ensures
        r@.len() == v@.len(),
        forall|i: int| 0 <= i < v@.len() ==> #[trigger] r@[i]@ == v@[i]@,
        comps_view(r@) =~= comps_view(v@),
{
    let mut r: Vec<String> = Vec::new();
    let mut i: usize = 0;
    while i < v.len()
        invariant
            0 <= i <= v@.len(),
            r@.len() == i,
            forall|k: int| 0 <= k < i ==> #[trigger] r@[k]@ == v@[k]@,
        decreases v@.len() - i,
    {
        r.push(v[i].clone());
        i = i + 1;
    }
    proof {
        assert(comps_view(r@) =~= comps_view(v@));
    }
    r
}

} // verus!
