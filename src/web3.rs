//! The `web3_*` helpers of the RPC layer.

use crate::crypto::{keccak256, keccak_of};
use vstd::prelude::*;
use vstd::string::*;

verus! {

/// Serves the `web3_*` methods.
pub struct Web3RpcImpl {}

impl Web3RpcImpl {
    /// The client's name and version.
    pub fn client_version(&self) -> (r: String)
        ensures
            r@ == "Nervos Polyjuice/v0.1.0"@,
    {
        String::from_str("Nervos Polyjuice/v0.1.0")
    }

    /// The Keccak-256 digest of `data`.
    pub fn sha3(&self, data: &Vec<u8>) -> (r: Vec<u8>)
        ensures
            r@ == keccak_of(data@),
    {
        keccak256(data.as_slice())
    }
}

} // verus!
