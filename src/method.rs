//! Methods of the local control API.

use vstd::prelude::*;

verus! {

/// A method that the control API serves, known by its name.
pub trait Method: Send + Sync {
    /// The method's name.
    spec fn spec_name(&self) -> Seq<char>;

    /// The method's name.
    fn name(&self) -> (r: &'static str)
        ensures
            r@ == self.spec_name(),
    ;
}

/// Hands out the node's private key.
pub struct DumpPrivKey;

impl Method for DumpPrivKey {
    open spec fn spec_name(&self) -> Seq<char> {
        seq!['d', 'u', 'm', 'p', 'p', 'r', 'i', 'v', 'k', 'e', 'y']
    }

    fn name(&self) -> (r: &'static str) {
        proof {
            reveal_strlit("dumpprivkey");
        }
        "dumpprivkey"
    }
}

} // verus!
