use food_openapi_rs::{
    method_from_name, parse_method, route_operation, route_path_item, route_schemas,
    HandlerSurface, HttpMethod, Operation, Parameter, ParameterIn, QuerySurface, RequestBody,
    Response, ResponseOrRef, Schema,
};

fn named(name: &str) -> (String, Schema) {
    (name.to_string(), Schema::Reference(format!("{}Body", name)))
}

fn page_parameter() -> Parameter {
    Parameter {
        name: "page".to_string(),
        location: ParameterIn::Query,
        required: false,
        schema: Some(Schema::Primitive),
    }
}

fn query(name: &str) -> QuerySurface {
    QuerySurface { entry: named(name), parameters: vec![page_parameter()] }
}

fn json(schema: Schema) -> Vec<(String, Schema)> {
    vec![("application/json".to_string(), schema)]
}

fn responses(content: Vec<(String, Schema)>) -> Vec<(String, ResponseOrRef)> {
    vec![
        (
            "200".to_string(),
            ResponseOrRef::Response(Response { description: String::new(), content }),
        ),
        ("400".to_string(), ResponseOrRef::Reference("ErrorResponse".to_string())),
        ("500".to_string(), ResponseOrRef::Reference("ErrorResponse".to_string())),
    ]
}

#[test]
fn method_names_are_parsed_whatever_their_case() {
    assert_eq!(parse_method("GET"), Some(HttpMethod::Get));
    assert_eq!(parse_method("get"), Some(HttpMethod::Get));
    assert_eq!(parse_method("Post"), Some(HttpMethod::Post));
    assert_eq!(parse_method("PUT"), Some(HttpMethod::Put));
    assert_eq!(parse_method("dElEtE"), Some(HttpMethod::Delete));
    assert_eq!(parse_method("PATCH"), Some(HttpMethod::Patch));
}

#[test]
fn other_method_names_are_not_accepted() {
    assert_eq!(parse_method("HEAD"), None);
    assert_eq!(parse_method("options"), None);
    assert_eq!(parse_method("trace"), None);
    assert_eq!(parse_method(""), None);
    assert_eq!(parse_method("get "), None);
    assert_eq!(parse_method("gets"), None);
}

#[test]
fn method_from_name_takes_lower_case_only() {
    assert_eq!(method_from_name("get"), Some(HttpMethod::Get));
    assert_eq!(method_from_name("post"), Some(HttpMethod::Post));
    assert_eq!(method_from_name("put"), Some(HttpMethod::Put));
    assert_eq!(method_from_name("delete"), Some(HttpMethod::Delete));
    assert_eq!(method_from_name("patch"), Some(HttpMethod::Patch));
    assert_eq!(method_from_name("GET"), None);
    assert_eq!(method_from_name("head"), None);
}

#[test]
fn operation_without_anything_has_bare_responses() {
    let surface = HandlerSurface { request: None, query: None, response: None };
    assert_eq!(
        route_operation(&surface),
        Operation { parameters: Vec::new(), request_body: None, responses: responses(Vec::new()) }
    );
}

#[test]
fn operation_with_response_carries_its_schema() {
    let surface = HandlerSurface { request: None, query: None, response: Some(named("Out")) };
    assert_eq!(
        route_operation(&surface),
        Operation {
            parameters: Vec::new(),
            request_body: None,
            responses: responses(json(named("Out").1)),
        }
    );
}

#[test]
fn operation_with_request_has_a_json_body() {
    let surface = HandlerSurface { request: Some(named("In")), query: None, response: None };
    assert_eq!(
        route_operation(&surface),
        Operation {
            parameters: Vec::new(),
            request_body: Some(RequestBody { content: json(named("In").1) }),
            responses: responses(Vec::new()),
        }
    );
}

#[test]
fn operation_with_request_and_response_has_both() {
    let surface =
        HandlerSurface { request: Some(named("In")), query: None, response: Some(named("Out")) };
    assert_eq!(
        route_operation(&surface),
        Operation {
            parameters: Vec::new(),
            request_body: Some(RequestBody { content: json(named("In").1) }),
            responses: responses(json(named("Out").1)),
        }
    );
}

#[test]
fn operation_with_query_describes_its_parameters() {
    let surface = HandlerSurface { request: None, query: Some(query("Page")), response: None };
    assert_eq!(
        route_operation(&surface),
        Operation {
            parameters: vec![page_parameter()],
            request_body: None,
            responses: responses(Vec::new()),
        }
    );
}

#[test]
fn operation_with_query_and_response_has_both() {
    let surface =
        HandlerSurface { request: None, query: Some(query("Page")), response: Some(named("Out")) };
    assert_eq!(
        route_operation(&surface),
        Operation {
            parameters: vec![page_parameter()],
            request_body: None,
            responses: responses(json(named("Out").1)),
        }
    );
}

#[test]
fn operation_with_request_leaves_query_parameters_out() {
    let surface = HandlerSurface {
        request: Some(named("In")),
        query: Some(query("Page")),
        response: Some(named("Out")),
    };
    assert_eq!(
        route_operation(&surface),
        Operation {
            parameters: Vec::new(),
            request_body: Some(RequestBody { content: json(named("In").1) }),
            responses: responses(json(named("Out").1)),
        }
    );
}

#[test]
fn schemas_are_listed_request_query_response() {
    let surface = HandlerSurface {
        request: Some(named("In")),
        query: Some(query("Page")),
        response: Some(named("Out")),
    };
    assert_eq!(route_schemas(&surface), vec![named("In"), named("Page"), named("Out")]);
}

#[test]
fn missing_parts_list_no_schema() {
    let none = HandlerSurface { request: None, query: None, response: None };
    assert_eq!(route_schemas(&none), Vec::new());
    let some = HandlerSurface { request: None, query: Some(query("Page")), response: None };
    assert_eq!(route_schemas(&some), vec![named("Page")]);
    let ends = HandlerSurface { request: Some(named("In")), query: None, response: Some(named("Out")) };
    assert_eq!(route_schemas(&ends), vec![named("In"), named("Out")]);
}

#[test]
fn path_item_holds_the_operation_under_its_method_only() {
    let surface = HandlerSurface { request: Some(named("In")), query: None, response: None };
    let item = route_path_item(HttpMethod::Patch, &surface);
    assert_eq!(item.operation(HttpMethod::Patch), Some(&route_operation(&surface)));
    assert_eq!(item.operation(HttpMethod::Get), None);
    assert_eq!(item.operation(HttpMethod::Put), None);
    assert_eq!(item.operation(HttpMethod::Post), None);
    assert_eq!(item.operation(HttpMethod::Delete), None);
    assert_eq!(item.operation(HttpMethod::Options), None);
    assert_eq!(item.operation(HttpMethod::Head), None);
    assert_eq!(item.operation(HttpMethod::Trace), None);
}
