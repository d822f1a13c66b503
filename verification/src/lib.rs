//! Assembles one API description document from route and schema-provider
//! entries that were registered independently of each other.
//!
//! The schema section of the document is closed under references: every name
//! that a schema in it mentions, and for which a provider is registered, has
//! an entry of its own.
//!
//! - `registry` holds the entries, `builder` builds the document from them.
//! - `references` finds the names that a schema refers to, `closure` closes a
//!   schema table under them, and `dangling` lists the references that stay
//!   unresolved.
//! - `schema` and `document` hold the types that a document is made of,
//!   `ordered` the insertion-ordered map that its tables are.
//! - `route` and `signature` describe a route from the method, the path and
//!   the signature of its handler.

pub mod builder;
pub mod closure;
pub mod dangling;
pub mod document;
pub mod error_response;
pub mod ordered;
pub mod references;
pub mod registry;
pub mod route;
pub mod schema;
pub mod signature;

pub use builder::{
    build_openapi, build_openapi_with_components, build_openapi_with_error_response, BuildError,
};
pub use closure::resolve_references;
pub use dangling::{dangling_references, document_references};
pub use document::{
    Components, Document, HttpMethod, Operation, Parameter, ParameterIn, PathItem, RequestBody,
    Response, ResponseOrRef,
};
pub use error_response::{build_error_response_from_schema, ErrorResponse};
pub use ordered::OrderedMap;
pub use references::{extract_schema_refs, schema_location, schema_name};
pub use registry::{ApiEntry, Registry, SchemaEntry, SchemaProvider};
pub use route::{
    method_from_name, parse_method, route_operation, route_path_item, route_schemas, HandlerSurface,
    QuerySurface,
};
pub use schema::Schema;
pub use signature::{
    extract_argument, extract_query_type, extract_request_type, extract_response_type,
    is_unit_type, wrapped_type, Argument, PathSegment, ResponseWrapper, Signature, TypeShape,
};
