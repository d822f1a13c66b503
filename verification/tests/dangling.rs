use food_openapi_rs::{
    build_openapi, build_openapi_with_components, dangling_references, document_references,
    route_path_item, ApiEntry, HandlerSurface, HttpMethod, Operation, Parameter, ParameterIn,
    PathItem, QuerySurface, Registry, RequestBody, Response, ResponseOrRef, Schema, SchemaEntry,
    SchemaProvider,
};

type Entries = Registry<fn() -> PathItem, fn() -> Vec<SchemaEntry>, fn() -> Schema>;

fn reference(name: &str) -> Schema {
    Schema::Reference(name.to_string())
}

fn get() -> PathItem {
    PathItem::new(
        HttpMethod::Get,
        Operation { parameters: Vec::new(), request_body: None, responses: Vec::new() },
    )
}

fn schemas() -> Vec<SchemaEntry> {
    vec![
        (
            "A".to_string(),
            Schema::Object {
                properties: vec![
                    ("gone".to_string(), reference("Gone")),
                    ("b".to_string(), reference("B")),
                    ("items".to_string(), Schema::Array(Box::new(reference("Hidden")))),
                ],
                additional_properties: Some(Box::new(reference("Lost"))),
            },
        ),
        ("B".to_string(), Schema::OneOf(vec![reference("Lost"), reference("Gone"), reference("C")])),
    ]
}

fn c_schema() -> Schema {
    Schema::AllOf(vec![reference("Far"), reference("A")])
}

fn registry() -> Entries {
    let mut registry: Entries = Registry::new();
    registry.register_route(ApiEntry { path: "/a".to_string(), path_item: get, schemas });
    registry.register_schema_provider(SchemaProvider { name: "C".to_string(), provider: c_schema });
    registry
}

#[test]
fn dangling_references_are_listed_once_in_order_met() {
    let document = build_openapi(&registry(), "api", "1").unwrap();
    assert_eq!(dangling_references(&document), vec!["Gone", "Lost", "Far"]);
}

#[test]
fn references_inside_arrays_are_not_reported() {
    let document = build_openapi(&registry(), "api", "1").unwrap();
    assert!(!dangling_references(&document).contains(&"Hidden".to_string()));
}

#[test]
fn supplied_schema_resolves_a_dangling_reference() {
    let additional = vec![("Gone".to_string(), Schema::Primitive)];
    let document =
        build_openapi_with_components(&registry(), "api", "1", additional, None).unwrap();
    assert_eq!(dangling_references(&document), vec!["Lost", "Far"]);
}

#[test]
fn registering_providers_later_resolves_references() {
    let mut registry = registry();
    let before = build_openapi(&registry, "api", "1").unwrap();
    assert_eq!(dangling_references(&before), vec!["Gone", "Lost", "Far"]);
    registry.register_schema_provider(SchemaProvider { name: "Gone".to_string(), provider: leaf });
    registry.register_schema_provider(SchemaProvider { name: "Lost".to_string(), provider: leaf });
    registry.register_schema_provider(SchemaProvider { name: "Far".to_string(), provider: leaf });
    let after = build_openapi(&registry, "api", "1").unwrap();
    assert_eq!(dangling_references(&after), Vec::<String>::new());
    assert_eq!(after.components.schemas.len(), 6);
}

fn leaf() -> Schema {
    Schema::Primitive
}

#[test]
fn document_without_schemas_has_no_dangling_references() {
    let empty: Entries = Registry::new();
    let document = build_openapi(&empty, "api", "1").unwrap();
    assert_eq!(dangling_references(&document), Vec::<String>::new());
}

fn described_operations() -> PathItem {
    let mut item = PathItem::new(
        HttpMethod::Post,
        Operation {
            parameters: vec![
                Parameter {
                    name: "limit".to_string(),
                    location: ParameterIn::Query,
                    required: true,
                    schema: Some(reference("Limit")),
                },
                Parameter {
                    name: "trace".to_string(),
                    location: ParameterIn::Header,
                    required: false,
                    schema: None,
                },
            ],
            request_body: Some(RequestBody {
                content: vec![("application/json".to_string(), reference("Body"))],
            }),
            responses: vec![
                (
                    "200".to_string(),
                    ResponseOrRef::Response(Response {
                        description: String::new(),
                        content: vec![("application/json".to_string(), reference("A"))],
                    }),
                ),
                ("400".to_string(), ResponseOrRef::Reference("ErrorResponse".to_string())),
            ],
        },
    );
    item.get = Some(Operation {
        parameters: Vec::new(),
        request_body: None,
        responses: vec![(
            "200".to_string(),
            ResponseOrRef::Response(Response {
                description: String::new(),
                content: vec![("application/json".to_string(), reference("Answer"))],
            }),
        )],
    });
    item
}

fn only_a() -> Vec<SchemaEntry> {
    vec![("A".to_string(), reference("Inner"))]
}

#[test]
fn references_of_operations_are_reported() {
    let mut registry: Entries = Registry::new();
    registry.register_route(ApiEntry {
        path: "/a".to_string(),
        path_item: described_operations,
        schemas: only_a,
    });
    let document = build_openapi(&registry, "api", "1").unwrap();
    assert_eq!(document_references(&document), vec!["Inner", "Answer", "Limit", "Body", "A"]);
    assert_eq!(dangling_references(&document), vec!["Inner", "Answer", "Limit", "Body"]);
}

#[test]
fn references_of_named_responses_are_reported() {
    let registry: Entries = Registry::new();
    let response = Response {
        description: "failure".to_string(),
        content: vec![
            ("application/json".to_string(), reference("Problem")),
            ("text/plain".to_string(), Schema::Primitive),
        ],
    };
    let additional = vec![("Known".to_string(), reference("Problem"))];
    let document = build_openapi_with_components(
        &registry,
        "api",
        "1",
        additional,
        Some(("Failure".to_string(), response)),
    )
    .unwrap();
    assert_eq!(document_references(&document), vec!["Problem"]);
    assert_eq!(dangling_references(&document), vec!["Problem"]);
}

#[test]
fn response_given_by_name_is_no_schema_reference() {
    let mut registry: Entries = Registry::new();
    registry.register_route(ApiEntry {
        path: "/a".to_string(),
        path_item: plain_route,
        schemas: no_schemas,
    });
    let document = build_openapi(&registry, "api", "1").unwrap();
    assert_eq!(document_references(&document), Vec::<String>::new());
    assert_eq!(dangling_references(&document), Vec::<String>::new());
}

fn plain_route() -> PathItem {
    route_path_item(
        HttpMethod::Get,
        &HandlerSurface { request: None, query: None, response: None },
    )
}

fn no_schemas() -> Vec<SchemaEntry> {
    Vec::new()
}

#[test]
fn listed_types_of_a_handler_do_not_dangle() {
    let mut registry: Entries = Registry::new();
    registry.register_route(ApiEntry {
        path: "/a".to_string(),
        path_item: full_route,
        schemas: full_schemas,
    });
    let document = build_openapi(&registry, "api", "1").unwrap();
    assert_eq!(document_references(&document), vec!["In", "Out", "Page"]);
    assert_eq!(dangling_references(&document), Vec::<String>::new());
}

fn full_surface() -> HandlerSurface {
    HandlerSurface {
        request: None,
        query: Some(QuerySurface {
            entry: ("Page".to_string(), Schema::Primitive),
            parameters: vec![Parameter {
                name: "page".to_string(),
                location: ParameterIn::Query,
                required: false,
                schema: Some(reference("Page")),
            }],
        }),
        response: Some(("Out".to_string(), reference("In"))),
    }
}

fn full_route() -> PathItem {
    route_path_item(HttpMethod::Get, &full_surface())
}

fn full_schemas() -> Vec<SchemaEntry> {
    let mut schemas = food_openapi_rs::route_schemas(&full_surface());
    schemas.push(("In".to_string(), reference("Out")));
    schemas
}
