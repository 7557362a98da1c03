//! Build-time utilities for describing a contract's interface: a normaliser
//! that attaches a fixed annotation bundle to a data-type definition, and an
//! integrity check that ties the operation names of a query message's
//! structural schema to the keys of its declared response map.

pub mod names;
pub mod schema;
pub mod query_response;
pub mod cw_serde;

pub use cw_serde::{cw_serde_impl, Annotation, Capability, DataKind, TypeDefinition};
pub use query_response::{
    check_api_integrity, checked_responses, IntegrityError, QueryResponses, ResponseMap,
};
pub use schema::{Alternative, InstanceType, InstanceTypes, QuerySchema, Shape, Subschemas};
