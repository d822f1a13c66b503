//! The standard error response.

use crate::document::{Response, ResponseView};
use crate::schema::{entries_view, Schema, SchemaView};
use vstd::prelude::*;
use vstd::string::StringExecFns;

verus! {

/// The body that the operations of an API answer an error with.
#[derive(Debug, PartialEq, Eq)]
pub struct ErrorResponse {
    pub error: String,
}

/// The view of the schema of `ErrorResponse`: an object whose one property,
/// `error`, is a primitive.
pub open spec fn error_response_schema() -> SchemaView {
    SchemaView::Object {
        properties: seq![("error"@, SchemaView::Primitive)],
        additional_properties: None,
    }
}

impl ErrorResponse {
    /// The name under which the error response is entered in a document.
    pub fn name() -> (name: String)
        ensures
            name@ == "ErrorResponse"@,
    {
        String::from_str("ErrorResponse")
    }

    /// The schema of an error response.
    pub fn schema() -> (schema: Schema)
        ensures
            schema@ == error_response_schema(),
    {
        let mut properties: Vec<(String, Schema)> = Vec::new();
        properties.push((String::from_str("error"), Schema::Primitive));
        assert(entries_view(properties) =~= seq![("error"@, SchemaView::Primitive)]);
        Schema::Object { properties, additional_properties: None }
    }
}

/// The response that carries a body of the given schema as JSON, described as
/// an error response.
pub fn build_error_response_from_schema(schema: Schema) -> (response: Response)
    ensures
        response@ == (ResponseView {
            description: "Error response"@,
            content: seq![("application/json"@, schema@)],
        }),
{
    let mut content: Vec<(String, Schema)> = Vec::new();
    content.push((String::from_str("application/json"), schema));
    assert(entries_view(content) =~= seq![("application/json"@, schema@)]);
    Response { description: String::from_str("Error response"), content }
}

} // verus!
