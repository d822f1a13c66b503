//! The assembled document and the parts it is made of.

use crate::ordered::OrderedMap;
use crate::schema::{entries_view, Schema, SchemaView};
use vstd::prelude::*;

verus! {

/// The HTTP methods that a path can answer to.
#[derive(Clone, Copy, Debug, PartialEq, Eq, Structural)]
pub enum HttpMethod {
    Get,
    Put,
    Post,
    Delete,
    Options,
    Head,
    Patch,
    Trace,
}

/// Where a parameter of an operation is carried.
#[derive(Clone, Copy, Debug, PartialEq, Eq, Structural)]
pub enum ParameterIn {
    Query,
    Path,
    Header,
    Cookie,
}

/// One parameter of an operation.
#[derive(Debug, PartialEq, Eq)]
pub struct Parameter {
    pub name: String,
    pub location: ParameterIn,
    pub required: bool,
    pub schema: Option<Schema>,
}

/// A parameter, taken by its view.
pub struct ParameterView {
    pub name: Seq<char>,
    pub location: ParameterIn,
    pub required: bool,
    pub schema: Option<SchemaView>,
}

impl View for Parameter {
    type V = ParameterView;

    open spec fn view(&self) -> ParameterView {
        ParameterView {
            name: self.name@,
            location: self.location,
            required: self.required,
            schema: match self.schema {
                Some(schema) => Some(schema@),
                None => None,
            },
        }
    }
}

impl Clone for Parameter {
    /// A copy with the same view.
    fn clone(&self) -> (copy: Self)
        ensures
            copy@ == self@,
    {
        Parameter {
            name: self.name.clone(),
            location: self.location,
            required: self.required,
            schema: match &self.schema {
                Some(schema) => Some(schema.clone()),
                None => None,
            },
        }
    }
}

/// The body that an operation accepts: a schema for each media type.
#[derive(Debug, PartialEq, Eq)]
pub struct RequestBody {
    pub content: Vec<(String, Schema)>,
}

/// A request body, taken by its view.
pub struct RequestBodyView {
    pub content: Seq<(Seq<char>, SchemaView)>,
}

impl View for RequestBody {
    type V = RequestBodyView;

    open spec fn view(&self) -> RequestBodyView {
        RequestBodyView { content: entries_view(self.content) }
    }
}

/// One response of an operation: a description and a schema for each media
/// type.
#[derive(Debug, PartialEq, Eq)]
pub struct Response {
    pub description: String,
    pub content: Vec<(String, Schema)>,
}

/// A response, taken by its view.
pub struct ResponseView {
    pub description: Seq<char>,
    pub content: Seq<(Seq<char>, SchemaView)>,
}

impl View for Response {
    type V = ResponseView;

    open spec fn view(&self) -> ResponseView {
        ResponseView { description: self.description@, content: entries_view(self.content) }
    }
}

/// A response written out in place, or the name of one of the responses of
/// the document.
#[derive(Debug, PartialEq, Eq)]
pub enum ResponseOrRef {
    Response(Response),
    Reference(String),
}

/// A response or the name of one, taken by its view.
pub enum ResponseOrRefView {
    Response(ResponseView),
    Reference(Seq<char>),
}

impl View for ResponseOrRef {
    type V = ResponseOrRefView;

    open spec fn view(&self) -> ResponseOrRefView {
        match self {
            ResponseOrRef::Response(response) => ResponseOrRefView::Response(response@),
            ResponseOrRef::Reference(name) => ResponseOrRefView::Reference(name@),
        }
    }
}

/// The description of one HTTP method on one path.
#[derive(Debug, PartialEq, Eq)]
pub struct Operation {
    pub parameters: Vec<Parameter>,
    pub request_body: Option<RequestBody>,
    /// The responses by status code, in the order in which they were added.
    pub responses: Vec<(String, ResponseOrRef)>,
}

/// An operation, taken by its view.
pub struct OperationView {
    pub parameters: Seq<ParameterView>,
    pub request_body: Option<RequestBodyView>,
    pub responses: Seq<(Seq<char>, ResponseOrRefView)>,
}

/// A list of parameters, each taken by its view.
pub open spec fn parameters_view(parameters: Vec<Parameter>) -> Seq<ParameterView> {
    Seq::new(parameters.len() as nat, |i: int| parameters[i]@)
}

/// A list of responses by status code, each taken by its view.
pub open spec fn responses_view(responses: Vec<(String, ResponseOrRef)>) -> Seq<
    (Seq<char>, ResponseOrRefView),
> {
    Seq::new(responses.len() as nat, |i: int| (responses[i].0@, responses[i].1@))
}

impl View for Operation {
    type V = OperationView;

    open spec fn view(&self) -> OperationView {
        OperationView {
            parameters: parameters_view(self.parameters),
            request_body: match self.request_body {
                Some(body) => Some(body@),
                None => None,
            },
            responses: responses_view(self.responses),
        }
    }
}

/// The operations of one path, at most one for each HTTP method.
#[derive(Debug, PartialEq, Eq)]
pub struct PathItem {
    pub get: Option<Operation>,
    pub put: Option<Operation>,
    pub post: Option<Operation>,
    pub delete: Option<Operation>,
    pub options: Option<Operation>,
    pub head: Option<Operation>,
    pub patch: Option<Operation>,
    pub trace: Option<Operation>,
}

/// A path item, taken by its view.
pub struct PathItemView {
    pub get: Option<OperationView>,
    pub put: Option<OperationView>,
    pub post: Option<OperationView>,
    pub delete: Option<OperationView>,
    pub options: Option<OperationView>,
    pub head: Option<OperationView>,
    pub patch: Option<OperationView>,
    pub trace: Option<OperationView>,
}

/// An operation that may be missing, taken by its view.
pub open spec fn slot_view(slot: Option<Operation>) -> Option<OperationView> {
    match slot {
        Some(operation) => Some(operation@),
        None => None,
    }
}

impl View for PathItem {
    type V = PathItemView;

    open spec fn view(&self) -> PathItemView {
        PathItemView {
            get: slot_view(self.get),
            put: slot_view(self.put),
            post: slot_view(self.post),
            delete: slot_view(self.delete),
            options: slot_view(self.options),
            head: slot_view(self.head),
            patch: slot_view(self.patch),
            trace: slot_view(self.trace),
        }
    }
}

impl PathItemView {
    /// A path item without operations.
    pub open spec fn empty() -> PathItemView {
        PathItemView {
            get: None,
            put: None,
            post: None,
            delete: None,
            options: None,
            head: None,
            patch: None,
            trace: None,
        }
    }

    /// The operation for `method`.
    pub open spec fn operation(self, method: HttpMethod) -> Option<OperationView> {
        match method {
            HttpMethod::Get => self.get,
            HttpMethod::Put => self.put,
            HttpMethod::Post => self.post,
            HttpMethod::Delete => self.delete,
            HttpMethod::Options => self.options,
            HttpMethod::Head => self.head,
            HttpMethod::Patch => self.patch,
            HttpMethod::Trace => self.trace,
        }
    }

    /// Both items hold an operation for `method`.
    pub open spec fn shares(self, other: PathItemView, method: HttpMethod) -> bool {
        self.operation(method) is Some && other.operation(method) is Some
    }

    /// The first method that both items hold an operation for, going through
    /// the methods in the order get, put, post, delete, options, head, patch,
    /// trace.
    pub open spec fn shared_method(self, other: PathItemView) -> Option<HttpMethod> {
        if self.shares(other, HttpMethod::Get) {
            Some(HttpMethod::Get)
        } else if self.shares(other, HttpMethod::Put) {
            Some(HttpMethod::Put)
        } else if self.shares(other, HttpMethod::Post) {
            Some(HttpMethod::Post)
        } else if self.shares(other, HttpMethod::Delete) {
            Some(HttpMethod::Delete)
        } else if self.shares(other, HttpMethod::Options) {
            Some(HttpMethod::Options)
        } else if self.shares(other, HttpMethod::Head) {
            Some(HttpMethod::Head)
        } else if self.shares(other, HttpMethod::Patch) {
            Some(HttpMethod::Patch)
        } else if self.shares(other, HttpMethod::Trace) {
            Some(HttpMethod::Trace)
        } else {
            None
        }
    }

    /// This item, with each operation that it lacks taken from `other`.
    pub open spec fn merged(self, other: PathItemView) -> PathItemView {
        PathItemView {
            get: if self.get is Some { self.get } else { other.get },
            put: if self.put is Some { self.put } else { other.put },
            post: if self.post is Some { self.post } else { other.post },
            delete: if self.delete is Some { self.delete } else { other.delete },
            options: if self.options is Some { self.options } else { other.options },
            head: if self.head is Some { self.head } else { other.head },
            patch: if self.patch is Some { self.patch } else { other.patch },
            trace: if self.trace is Some { self.trace } else { other.trace },
        }
    }
}

/// Merging gives each method the operation that either item holds for it,
/// and that of the first item where both hold one.
pub proof fn lemma_merged(a: PathItemView, b: PathItemView, method: HttpMethod)
    ensures
        a.merged(b).operation(method) == if a.operation(method) is Some {
            a.operation(method)
        } else {
            b.operation(method)
        },
{
}

/// Two items share no method exactly where `shared_method` finds none, and
/// what it finds is shared.
pub proof fn lemma_shared_method(a: PathItemView, b: PathItemView)
    ensures
        a.shared_method(b) is None <==> forall|method: HttpMethod| !a.shares(b, method),
        a.shared_method(b) matches Some(method) ==> a.shares(b, method),
{
    if a.shared_method(b) is None {
        assert forall|method: HttpMethod| !a.shares(b, method) by {
            match method {
                HttpMethod::Get => {},
                HttpMethod::Put => {},
                HttpMethod::Post => {},
                HttpMethod::Delete => {},
                HttpMethod::Options => {},
                HttpMethod::Head => {},
                HttpMethod::Patch => {},
                HttpMethod::Trace => {},
            }
        }
    }
}

impl PathItem {
    /// A path item without operations.
    pub fn empty() -> (item: PathItem)
        ensures
            item@ == PathItemView::empty(),
    {
        PathItem {
            get: None,
            put: None,
            post: None,
            delete: None,
            options: None,
            head: None,
            patch: None,
            trace: None,
        }
    }

    /// A path item with `operation` for `method` and no other operation.
    pub fn new(method: HttpMethod, operation: Operation) -> (item: PathItem)
        ensures
            item@.operation(method) == Some(operation@),
            forall|other: HttpMethod| other != method ==> item@.operation(other) is None,
    {
        let mut item = PathItem::empty();
        match method {
            HttpMethod::Get => item.get = Some(operation),
            HttpMethod::Put => item.put = Some(operation),
            HttpMethod::Post => item.post = Some(operation),
            HttpMethod::Delete => item.delete = Some(operation),
            HttpMethod::Options => item.options = Some(operation),
            HttpMethod::Head => item.head = Some(operation),
            HttpMethod::Patch => item.patch = Some(operation),
            HttpMethod::Trace => item.trace = Some(operation),
        }
        item
    }

    /// The operation for `method`.
    pub fn operation(&self, method: HttpMethod) -> (found: Option<&Operation>)
        ensures
            match found {
                Some(operation) => self@.operation(method) == Some(operation@),
                None => self@.operation(method) is None,
            },
    {
        match method {
            HttpMethod::Get => self.get.as_ref(),
            HttpMethod::Put => self.put.as_ref(),
            HttpMethod::Post => self.post.as_ref(),
            HttpMethod::Delete => self.delete.as_ref(),
            HttpMethod::Options => self.options.as_ref(),
            HttpMethod::Head => self.head.as_ref(),
            HttpMethod::Patch => self.patch.as_ref(),
            HttpMethod::Trace => self.trace.as_ref(),
        }
    }

    /// The first method that this item and `other` both hold an operation
    /// for.
    pub fn shared_method(&self, other: &PathItem) -> (method: Option<HttpMethod>)
        ensures
            method == self@.shared_method(other@),
    {
        if self.get.is_some() && other.get.is_some() {
            Some(HttpMethod::Get)
        } else if self.put.is_some() && other.put.is_some() {
            Some(HttpMethod::Put)
        } else if self.post.is_some() && other.post.is_some() {
            Some(HttpMethod::Post)
        } else if self.delete.is_some() && other.delete.is_some() {
            Some(HttpMethod::Delete)
        } else if self.options.is_some() && other.options.is_some() {
            Some(HttpMethod::Options)
        } else if self.head.is_some() && other.head.is_some() {
            Some(HttpMethod::Head)
        } else if self.patch.is_some() && other.patch.is_some() {
            Some(HttpMethod::Patch)
        } else if self.trace.is_some() && other.trace.is_some() {
            Some(HttpMethod::Trace)
        } else {
            None
        }
    }

    /// Takes from `other` each operation that this item lacks. Where both
    /// hold an operation for a method, this item keeps its own.
    pub fn merge_operations(&mut self, other: PathItem)
        ensures
            final(self)@ == old(self)@.merged(other@),
    {
        if self.get.is_none() {
            self.get = other.get;
        }
        if self.put.is_none() {
            self.put = other.put;
        }
        if self.post.is_none() {
            self.post = other.post;
        }
        if self.delete.is_none() {
            self.delete = other.delete;
        }
        if self.options.is_none() {
            self.options = other.options;
        }
        if self.head.is_none() {
            self.head = other.head;
        }
        if self.patch.is_none() {
            self.patch = other.patch;
        }
        if self.trace.is_none() {
            self.trace = other.trace;
        }
    }
}

/// The named schemas and responses of a document.
#[derive(Debug, PartialEq, Eq)]
pub struct Components {
    pub schemas: OrderedMap<Schema>,
    pub responses: OrderedMap<Response>,
}

/// The components of a document, taken by their views.
pub struct ComponentsView {
    pub schemas: Seq<(Seq<char>, SchemaView)>,
    pub responses: Seq<(Seq<char>, ResponseView)>,
}

impl View for Components {
    type V = ComponentsView;

    open spec fn view(&self) -> ComponentsView {
        ComponentsView { schemas: self.schemas@, responses: self.responses@ }
    }
}

/// The assembled description of an API.
#[derive(Debug, PartialEq, Eq)]
pub struct Document {
    pub title: String,
    pub version: String,
    /// The operations by path, in the order in which the paths were first
    /// registered.
    pub paths: OrderedMap<PathItem>,
    pub components: Components,
}

/// A document, taken by its view.
pub struct DocumentView {
    pub title: Seq<char>,
    pub version: Seq<char>,
    pub paths: Seq<(Seq<char>, PathItemView)>,
    pub components: ComponentsView,
}

impl View for Document {
    type V = DocumentView;

    open spec fn view(&self) -> DocumentView {
        DocumentView {
            title: self.title@,
            version: self.version@,
            paths: self.paths@,
            components: self.components@,
        }
    }
}

} // verus!
