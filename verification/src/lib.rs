//! Operation identifiers for the endpoints of an API description.
//!
//! Client generators want an operation id for every endpoint, while the
//! descriptions may leave them out. [`OperationIds`] keeps the ids and the
//! endpoints they belong to, one to one, and makes up an id for an endpoint
//! that has none from its path template and its method.

pub mod document;
pub mod error;
pub mod key;
pub mod model;
pub mod opid;
pub mod path;
pub mod registry;
pub mod text;

pub use document::{gen_operation_ids, Endpoint, Refusal};
pub use error::RegistryError;
pub use key::PathMethod;
pub use path::extract_params;
pub use registry::OperationIds;
