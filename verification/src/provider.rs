//! State at a past block, with proofs from a store.
use vstd::prelude::*;

verus! {

/// State at a past block: what has nothing to do with tries comes from the node's own
/// historical state, proofs from the store.
#[derive(Debug)]
pub struct ExternalOverlayStateProviderRef<Historical, P, Provider> {
    /// Historical state provider for non-trie related tasks.
    pub historical: Historical,
    pub provider: Provider,
    /// Storage provider for state lookups.
    pub storage: P,
    pub block_number: u64,
}

impl<Historical, P, Provider> ExternalOverlayStateProviderRef<Historical, P, Provider> {
    pub fn new(historical: Historical, storage: P, provider: Provider, block_number: u64) -> (r: Self)
        ensures
            r.historical == historical,
            r.storage == storage,
            r.provider == provider,
            r.block_number == block_number,
    {
        Self { historical, provider, storage, block_number }
    }
}

} // verus!
