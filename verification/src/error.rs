//! The reasons for which the registry refuses a request.

use vstd::prelude::*;

verus! {

/// Why the registry turned a request down.
#[derive(Clone, Copy, Debug, PartialEq, Eq, Structural)]
pub enum RegistryError {
    /// The path or the method of the endpoint is empty.
    InvalidKey,
    /// The operation id already belongs to another endpoint.
    DuplicateId,
    /// The endpoint already has an operation id.
    DuplicateEndpoint,
}

} // verus!
