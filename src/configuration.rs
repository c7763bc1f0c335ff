use vstd::prelude::*;

verus! {

/// The number of proofs that may run at once when the settings name none.
pub const DEFAULT_POOL_SIZE: u64 = 4;

/// The relay's settings: the credentials and the address of the remote
/// proving service, and how many proofs may run at once.
pub struct RelayConfig {
    pub bonsai_api_key: String,
    pub bonsai_api_url: String,
    pub pool_size: u64,
}

impl RelayConfig {
    pub fn new(bonsai_api_key: String, bonsai_api_url: String, pool_size: u64) -> (r: RelayConfig)
        ensures
            r.bonsai_api_key@ == bonsai_api_key@,
            r.bonsai_api_url@ == bonsai_api_url@,
            r.pool_size == pool_size,
    {
        RelayConfig { bonsai_api_key, bonsai_api_url, pool_size }
    }
}

} // verus!
