//! Paths below the directory that the plugin keeps its data in.

use vstd::prelude::*;

verus! {

/// The components of a path, from the data directory on.
#[derive(Debug)]
pub struct RelPath {
    pub parts: Vec<String>,
}

impl View for RelPath {
    type V = Seq<Seq<char>>;

    open spec fn view(&self) -> Seq<Seq<char>> {
        self.parts@.map_values(|s: String| s@)
    }
}

impl RelPath {
    /// A path of one component.
    pub fn one(a: &str) -> (r: RelPath)
        ensures
            r@ == seq![a@],
    {
        let mut parts: Vec<String> = Vec::new();
        parts.push(a.to_owned());
        let r = RelPath { parts };
        proof {
            assert(r@ =~= seq![a@]);
        }
        r
    }

    /// The path of an entry of this one.
    pub fn join(self, b: &str) -> (r: RelPath)
        ensures
            r@ == self@.push(b@),
    {
        let ghost before = self@;
        let mut parts = self.parts;
        parts.push(b.to_owned());
        let r = RelPath { parts };
        proof {
            assert(r@ =~= before.push(b@));
        }
        r
    }
}

} // verus!
