//! The structured requests the host hands to the registry, and the one
//! structured response it hands back.

use vstd::prelude::*;

verus! {

/// The request that creates the directory state.
#[derive(Clone, Debug, PartialEq)]
pub struct InitMsg {
    pub directory_name: String,
}

/// A state-mutating request.
#[derive(Clone, Debug, PartialEq)]
pub enum HandleMsg {
    AddFileAddress { file_name: String, ipfs_address: String },
}

/// A read-only request.
#[derive(Clone, Debug, PartialEq)]
pub enum QueryMsg {
    GetFileAddress { file_name: String },
}

/// The response to a successful `QueryMsg::GetFileAddress`.
#[derive(Clone, Debug, PartialEq)]
pub struct FileAddressResponse {
    pub ipfs_address: String,
}

} // verus!
