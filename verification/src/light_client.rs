//! Light blocks and verified headers, from the point of view of the relayer.

use vstd::prelude::*;

verus! {

/// The types by which a chain describes its headers.
pub trait ChainEndpoint {
    /// What a light client of the chain fetches and verifies.
    type LightBlock;

    /// The header that a client update carries.
    type Header;
}

/// Defines a light block from the point of view of the relayer.
pub trait LightBlock<C: ChainEndpoint>: Send + Sync {
    fn signed_header(&self) -> &C::Header;
}

/// A verified header together with the headers that support it.
#[derive(Clone, Debug, PartialEq, Eq)]
pub struct Verified<H> {
    /// Verified target
    pub target: H,
    /// Supporting headers needed to verify `target`
    pub supporting: Vec<H>,
}

} // verus!
