use vstd::prelude::*;

verus! {

/// An opaque, unforgeable caller identity, supplied by the host with every
/// invocation. The core only ever compares identities for equality, so it is
/// modelled as a plain numeric handle; the host boundary translates its own
/// principal representation to and from this handle.
#[derive(Clone, Copy, Debug, PartialEq, Eq, Structural, Hash, PartialOrd, Ord)]
pub struct PartyId(pub u64);

} // verus!
