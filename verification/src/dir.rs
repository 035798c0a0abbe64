//! A directory subtree on which a batch operation runs. The traversal
//! itself is outside work; the verified part owns the root path.

use vstd::prelude::*;

verus! {

/// The root of a subtree to sweep.
pub struct Dir {
    path: String,
}

impl Dir {
    /// The root path of the subtree.
    pub closed spec fn path_spec(&self) -> Seq<char> {
        self.path@
    }

    /// A scanner rooted at `p`.
    pub fn new(p: String) -> (d: Dir)
        ensures
            d.path_spec() == p@,
    {
        Dir { path: p }
    }

    /// The root path of the subtree.
    pub fn path(&self) -> (r: &String)
        ensures
            r@ == self.path_spec(),
    {
        &self.path
    }
}

} // verus!
