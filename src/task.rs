//! Requests that the control API hands on to the node.

use vstd::prelude::*;

verus! {

/// A request from the control API to the node.
#[derive(Clone, Copy, PartialEq, Eq, Structural, Debug)]
pub enum Task {
    /// No input; answers the private key, Base58-encoded.
    DumpPrivKey,
    /// No input; answers an object with the number of nodes, among others.
    GetNetworkInfo,
    /// No input; answers an array of peers (id, address, connection time).
    GetPeerInfo,
}

} // verus!
