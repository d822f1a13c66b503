//! What the declaration of a route contributes: its method, the description of
//! its operation, and the named schemas that the operation uses directly.

use crate::document::{
    parameters_view, HttpMethod, Operation, OperationView, Parameter, ParameterView, PathItem,
    RequestBody, RequestBodyView, Response, ResponseOrRef, ResponseOrRefView, ResponseView,
};
use crate::registry::SchemaEntry;
use crate::schema::{entries_view, Schema, SchemaView};
use vstd::prelude::*;
use vstd::string::StringExecFns;

verus! {

/// The lower-case form of a text, as `str::to_lowercase` of std gives it.
pub uninterp spec fn lowercase(text: Seq<char>) -> Seq<char>;

/// `str::to_lowercase` of std: the lower-case form of `text`, by the rules of
/// Unicode. The contract gives the result a name and says no more of it.
#[verifier::external_body]
fn to_lowercase(text: &str) -> (lowered: String)
    ensures
        lowered@ == lowercase(text@),
{
    text.to_lowercase()
}

/// The method that a route is declared with under `name`: `get`, `post`,
/// `put`, `delete` or `patch`, in lower case.
pub open spec fn method_named(name: Seq<char>) -> Option<HttpMethod> {
    if name == "get"@ {
        Some(HttpMethod::Get)
    } else if name == "post"@ {
        Some(HttpMethod::Post)
    } else if name == "put"@ {
        Some(HttpMethod::Put)
    } else if name == "delete"@ {
        Some(HttpMethod::Delete)
    } else if name == "patch"@ {
        Some(HttpMethod::Patch)
    } else {
        None
    }
}

/// The method named `name`, where `name` is one of the five lower-case names
/// that a route can be declared with.
pub fn method_from_name(name: &str) -> (method: Option<HttpMethod>)
    ensures
        method == method_named(name@),
{
    let name = String::from_str(name);
    if name == String::from_str("get") {
        Some(HttpMethod::Get)
    } else if name == String::from_str("post") {
        Some(HttpMethod::Post)
    } else if name == String::from_str("put") {
        Some(HttpMethod::Put)
    } else if name == String::from_str("delete") {
        Some(HttpMethod::Delete)
    } else if name == String::from_str("patch") {
        Some(HttpMethod::Patch)
    } else {
        None
    }
}

/// The method that a route is declared with, whatever the case of its
/// letters: the method named by the lower-case form of `name`.
pub fn parse_method(name: &str) -> (method: Option<HttpMethod>)
    ensures
        method == method_named(lowercase(name@)),
{
    let lowered = to_lowercase(name);
    method_from_name(lowered.as_str())
}

/// The query type of a handler: its named schema, and the parameters that it
/// stands for.
#[derive(Debug, PartialEq, Eq)]
pub struct QuerySurface {
    pub entry: SchemaEntry,
    pub parameters: Vec<Parameter>,
}

/// A query type, taken by its view.
pub struct QuerySurfaceView {
    pub entry: (Seq<char>, SchemaView),
    pub parameters: Seq<ParameterView>,
}

impl View for QuerySurface {
    type V = QuerySurfaceView;

    open spec fn view(&self) -> QuerySurfaceView {
        QuerySurfaceView {
            entry: (self.entry.0@, self.entry.1@),
            parameters: parameters_view(self.parameters),
        }
    }
}

/// What a handler takes and returns, as far as its operation describes it:
/// the named schema of its JSON body, its query type, and the named schema of
/// the JSON that it answers with. Each may be missing.
#[derive(Debug, PartialEq, Eq)]
pub struct HandlerSurface {
    pub request: Option<SchemaEntry>,
    pub query: Option<QuerySurface>,
    pub response: Option<SchemaEntry>,
}

/// The surface of a handler, taken by its view.
pub struct HandlerSurfaceView {
    pub request: Option<(Seq<char>, SchemaView)>,
    pub query: Option<QuerySurfaceView>,
    pub response: Option<(Seq<char>, SchemaView)>,
}

/// A named schema that may be missing, taken by its view.
pub open spec fn optional_entry_view(entry: Option<SchemaEntry>) -> Option<
    (Seq<char>, SchemaView),
> {
    match entry {
        Some(entry) => Some((entry.0@, entry.1@)),
        None => None,
    }
}

impl View for HandlerSurface {
    type V = HandlerSurfaceView;

    open spec fn view(&self) -> HandlerSurfaceView {
        HandlerSurfaceView {
            request: optional_entry_view(self.request),
            query: match self.query {
                Some(query) => Some(query@),
                None => None,
            },
            response: optional_entry_view(self.response),
        }
    }
}

/// The content of a JSON body of the given schema, or no content where there
/// is no schema.
pub open spec fn json_content(entry: Option<(Seq<char>, SchemaView)>) -> Seq<
    (Seq<char>, SchemaView),
> {
    match entry {
        Some(entry) => seq![("application/json"@, entry.1)],
        None => Seq::empty(),
    }
}

/// The operation of a handler.
///
/// A JSON body becomes the request body. The parameters of the query type are
/// described where the handler takes no JSON body. The response `200` carries
/// the JSON that the handler answers with, or nothing; the responses `400` and
/// `500` refer to the response named `ErrorResponse`.
pub open spec fn operation_of(surface: HandlerSurfaceView) -> OperationView {
    OperationView {
        parameters: match surface.query {
            Some(query) => if surface.request is None {
                query.parameters
            } else {
                Seq::empty()
            },
            None => Seq::empty(),
        },
        request_body: match surface.request {
            Some(entry) => Some(RequestBodyView { content: json_content(Some(entry)) }),
            None => None,
        },
        responses: seq![
            (
                "200"@,
                ResponseOrRefView::Response(
                    ResponseView {
                        description: Seq::empty(),
                        content: json_content(surface.response),
                    },
                ),
            ),
            ("400"@, ResponseOrRefView::Reference("ErrorResponse"@)),
            ("500"@, ResponseOrRefView::Reference("ErrorResponse"@)),
        ],
    }
}

/// One named schema as a list, or the empty list.
pub open spec fn optional_entry(entry: Option<(Seq<char>, SchemaView)>) -> Seq<
    (Seq<char>, SchemaView),
> {
    match entry {
        Some(entry) => seq![entry],
        None => Seq::empty(),
    }
}

/// The named schemas that the operation of a handler uses directly: that of
/// the body, that of the query type and that of the answer, in this order.
pub open spec fn schemas_of(surface: HandlerSurfaceView) -> Seq<(Seq<char>, SchemaView)> {
    optional_entry(surface.request) + optional_entry(
        match surface.query {
            Some(query) => Some(query.entry),
            None => None,
        },
    ) + optional_entry(surface.response)
}

/// A copy of a list of parameters.
fn clone_parameters(parameters: &Vec<Parameter>) -> (copy: Vec<Parameter>)
    ensures
        parameters_view(copy) == parameters_view(*parameters),
{
    let mut copy: Vec<Parameter> = Vec::new();
    let mut i: usize = 0;
    while i < parameters.len()
        invariant
            i <= parameters.len(),
            copy.len() == i,
            forall|k: int| 0 <= k < i ==> (#[trigger] copy[k])@ == parameters[k]@,
        decreases parameters.len() - i,
    {
        copy.push(parameters[i].clone());
        i += 1;
    }
    assert(parameters_view(copy) =~= parameters_view(*parameters));
    copy
}

/// The content of a JSON body of the schema of `entry`.
fn json_body(entry: &Option<SchemaEntry>) -> (content: Vec<(String, Schema)>)
    ensures
        entries_view(content) == json_content(optional_entry_view(*entry)),
{
    let mut content: Vec<(String, Schema)> = Vec::new();
    match entry {
        Some(entry) => {
            content.push((String::from_str("application/json"), entry.1.clone()));
            assert(entries_view(content) =~= seq![("application/json"@, entry.1@)]);
        },
        None => {
            assert(entries_view(content) =~= Seq::<(Seq<char>, SchemaView)>::empty());
        },
    }
    content
}

/// Describes the operation of a handler.
pub fn route_operation(surface: &HandlerSurface) -> (operation: Operation)
    ensures
        operation@ == operation_of(surface@),
{
    let parameters = match &surface.query {
        Some(query) => if surface.request.is_none() {
            clone_parameters(&query.parameters)
        } else {
            Vec::new()
        },
        None => Vec::new(),
    };
    assert(surface.query is None || surface.request is Some ==> parameters_view(parameters)
        =~= Seq::<ParameterView>::empty());
    let request_body = match &surface.request {
        Some(_) => Some(RequestBody { content: json_body(&surface.request) }),
        None => None,
    };
    let answer = Response { description: String::new(), content: json_body(&surface.response) };
    let mut responses: Vec<(String, ResponseOrRef)> = Vec::new();
    responses.push((String::from_str("200"), ResponseOrRef::Response(answer)));
    responses.push(
        (String::from_str("400"), ResponseOrRef::Reference(String::from_str("ErrorResponse"))),
    );
    responses.push(
        (String::from_str("500"), ResponseOrRef::Reference(String::from_str("ErrorResponse"))),
    );
    let operation = Operation { parameters, request_body, responses };
    assert(operation@.responses =~= operation_of(surface@).responses);
    operation
}

/// Describes a handler under one method: the path item that holds its
/// operation for `method` and no other operation.
pub fn route_path_item(method: HttpMethod, surface: &HandlerSurface) -> (item: PathItem)
    ensures
        item@.operation(method) == Some(operation_of(surface@)),
        forall|other: HttpMethod| other != method ==> item@.operation(other) is None,
{
    PathItem::new(method, route_operation(surface))
}

/// Lists the named schemas that the operation of a handler uses directly.
pub fn route_schemas(surface: &HandlerSurface) -> (schemas: Vec<SchemaEntry>)
    ensures
        entries_view(schemas) == schemas_of(surface@),
{
    let mut schemas: Vec<SchemaEntry> = Vec::new();
    match &surface.request {
        Some(entry) => schemas.push((entry.0.clone(), entry.1.clone())),
        None => {},
    }
    match &surface.query {
        Some(query) => schemas.push((query.entry.0.clone(), query.entry.1.clone())),
        None => {},
    }
    match &surface.response {
        Some(entry) => schemas.push((entry.0.clone(), entry.1.clone())),
        None => {},
    }
    assert(entries_view(schemas) =~= schemas_of(surface@));
    schemas
}

} // verus!
