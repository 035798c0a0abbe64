//! The stabilization workflow for one feature: it plans a sweep that strips
//! the feature's attribute line from every test file under the source tree.
//! Performing the sweep — walking the tree and touching files — is outside
//! work; the decisions, which subtree and which marker line, are made here.

use vstd::prelude::*;
use vstd::string::StringExecFns;

verus! {

/// The one batch action the workflow asks for: in every file under `root`,
/// delete each line containing `marker`.
pub struct ScanPlan {
    pub root: String,
    pub marker: String,
}

/// The workflow state: the feature to stabilize and the tree it lives in.
#[derive(Clone, Debug)]
pub struct Stabilize {
    feature: String,
    path: String,
}

impl Stabilize {
    /// The feature being stabilized.
    pub closed spec fn feature_spec(&self) -> Seq<char> {
        self.feature@
    }

    /// The root of the source tree.
    pub closed spec fn path_spec(&self) -> Seq<char> {
        self.path@
    }

    /// A workflow for `feature`, rooted at the working directory `path`.
    pub fn try_new(feature: &str, path: String) -> (s: Stabilize)
        ensures
            s.feature_spec() == feature@,
            s.path_spec() == path@,
    {
        Stabilize { feature: feature.to_owned(), path }
    }

    /// Starts the workflow; its whole work is the sweep that removes the
    /// feature's flag from the tests.
    pub fn start(self) -> (r: ScanPlan)
        ensures
            r.root@ == self.path_spec() + "/src/test/ui/"@,
            r.marker@ == "#![feature("@ + self.feature_spec() + ")]"@,
    {
        self.remove_feature_flag_from_tests()
    }

    /// Plans the sweep: under the test tree, every line holding the
    /// feature's attribute is to be deleted.
    fn remove_feature_flag_from_tests(self) -> (r: ScanPlan)
        ensures
            r.root@ == self.path_spec() + "/src/test/ui/"@,
            r.marker@ == "#![feature("@ + self.feature_spec() + ")]"@,
    {
        let Stabilize { feature, path } = self;
        let mut root = path;
        root.append("/src/test/ui/");
        let mut marker = String::from_str("#![feature(");
        marker.append(feature.as_str());
        marker.append(")]");
        ScanPlan { root, marker }
    }
}

} // verus!
