use food_openapi_rs::{
    build_openapi, build_openapi_with_components, dangling_references, route_path_item,
    route_schemas, ApiEntry, BuildError, HandlerSurface, HttpMethod, PathItem, Registry, Response,
    ResponseOrRef, Schema, SchemaEntry, SchemaProvider,
};

type Entries = Registry<fn() -> PathItem, fn() -> Vec<SchemaEntry>, fn() -> Schema>;

fn plain_surface() -> HandlerSurface {
    HandlerSurface { request: None, query: None, response: None }
}

fn plain_get() -> PathItem {
    route_path_item(HttpMethod::Get, &plain_surface())
}

fn plain_schemas() -> Vec<SchemaEntry> {
    route_schemas(&plain_surface())
}

fn pet_schema() -> Schema {
    Schema::Object {
        properties: vec![("owner".to_string(), Schema::Reference("Owner".to_string()))],
        additional_properties: None,
    }
}

fn pet_surface() -> HandlerSurface {
    HandlerSurface { request: None, query: None, response: Some(("Pet".to_string(), pet_schema())) }
}

fn get_pet() -> PathItem {
    route_path_item(HttpMethod::Get, &pet_surface())
}

fn pet_schemas() -> Vec<SchemaEntry> {
    route_schemas(&pet_surface())
}

fn owner_primitive() -> Schema {
    Schema::Primitive
}

fn owner_surface() -> HandlerSurface {
    HandlerSurface {
        request: None,
        query: None,
        response: Some((
            "Owner".to_string(),
            Schema::Object {
                properties: vec![("name".to_string(), Schema::Primitive)],
                additional_properties: None,
            },
        )),
    }
}

fn get_owner() -> PathItem {
    route_path_item(HttpMethod::Get, &owner_surface())
}

fn owner_schemas() -> Vec<SchemaEntry> {
    route_schemas(&owner_surface())
}

fn pet_registry() -> Entries {
    let mut registry: Entries = Registry::new();
    registry.register_route(ApiEntry {
        path: "/pets".to_string(),
        path_item: get_pet,
        schemas: pet_schemas,
    });
    registry
}

#[test]
fn route_without_schemas_gives_one_bare_operation() {
    let mut registry: Entries = Registry::new();
    registry.register_route(ApiEntry {
        path: "/health".to_string(),
        path_item: plain_get,
        schemas: plain_schemas,
    });
    let document = build_openapi(&registry, "api", "1.0.0").unwrap();
    assert_eq!(document.paths.len(), 1);
    assert_eq!(document.paths.key_at(0), "/health");
    let item = document.paths.value_at(0);
    let operation = item.operation(HttpMethod::Get).unwrap();
    assert_eq!(operation.request_body, None);
    assert!(operation.parameters.is_empty());
    assert_eq!(
        operation.responses[0],
        (
            "200".to_string(),
            ResponseOrRef::Response(Response { description: String::new(), content: Vec::new() })
        )
    );
    assert!(item.operation(HttpMethod::Post).is_none());
    assert!(item.operation(HttpMethod::Put).is_none());
    assert!(item.operation(HttpMethod::Delete).is_none());
    assert!(item.operation(HttpMethod::Patch).is_none());
    assert_eq!(document.components.schemas.len(), 0);
    assert_eq!(document.components.responses.len(), 0);
}

#[test]
fn route_without_schemas_keeps_additional_schemas_only() {
    let mut registry: Entries = Registry::new();
    registry.register_route(ApiEntry {
        path: "/health".to_string(),
        path_item: plain_get,
        schemas: plain_schemas,
    });
    let additional = vec![("Extra".to_string(), Schema::Primitive)];
    let document =
        build_openapi_with_components(&registry, "api", "1.0.0", additional, None).unwrap();
    assert_eq!(document.paths.len(), 1);
    assert_eq!(document.components.schemas.len(), 1);
    assert_eq!(document.components.schemas.key_at(0), "Extra");
    assert_eq!(document.components.schemas.value_at(0), &Schema::Primitive);
}

#[test]
fn provider_resolves_nested_reference() {
    let mut registry = pet_registry();
    registry.register_schema_provider(SchemaProvider {
        name: "Owner".to_string(),
        provider: owner_primitive,
    });
    let document = build_openapi(&registry, "pets", "1.0.0").unwrap();
    let schemas = &document.components.schemas;
    assert_eq!(schemas.len(), 2);
    assert_eq!(schemas.key_at(0), "Pet");
    assert_eq!(schemas.value_at(0), &pet_schema());
    assert_eq!(schemas.key_at(1), "Owner");
    assert_eq!(schemas.value_at(1), &Schema::Primitive);
    assert_eq!(dangling_references(&document), Vec::<String>::new());
}

#[test]
fn missing_provider_leaves_reference_dangling() {
    let registry = pet_registry();
    let document = build_openapi(&registry, "pets", "1.0.0").unwrap();
    let schemas = &document.components.schemas;
    assert_eq!(schemas.len(), 1);
    assert_eq!(schemas.key_at(0), "Pet");
    assert_eq!(schemas.value_at(0), &pet_schema());
    assert!(!schemas.contains_key(&"Owner".to_string()));
    assert_eq!(dangling_references(&document), vec!["Owner".to_string()]);
}

#[test]
fn same_method_on_same_path_is_an_error() {
    let mut registry: Entries = Registry::new();
    registry.register_route(ApiEntry {
        path: "/pets".to_string(),
        path_item: get_pet,
        schemas: pet_schemas,
    });
    registry.register_route(ApiEntry {
        path: "/pets".to_string(),
        path_item: get_owner,
        schemas: owner_schemas,
    });
    let result = build_openapi(&registry, "pets", "1.0.0");
    assert_eq!(
        result,
        Err(BuildError::DuplicateRoute { path: "/pets".to_string(), method: HttpMethod::Get })
    );
}

#[test]
fn directly_listed_schema_wins_over_provider() {
    let mut registry: Entries = Registry::new();
    registry.register_route(ApiEntry {
        path: "/pets".to_string(),
        path_item: get_pet,
        schemas: pet_schemas,
    });
    registry.register_route(ApiEntry {
        path: "/owners".to_string(),
        path_item: get_owner,
        schemas: owner_schemas,
    });
    registry.register_schema_provider(SchemaProvider {
        name: "Owner".to_string(),
        provider: owner_primitive,
    });
    let document = build_openapi(&registry, "pets", "1.0.0").unwrap();
    let schemas = &document.components.schemas;
    assert_eq!(schemas.len(), 2);
    assert_eq!(schemas.key_at(0), "Pet");
    assert_eq!(schemas.key_at(1), "Owner");
    assert_eq!(
        schemas.value_at(1),
        &Schema::Object {
            properties: vec![("name".to_string(), Schema::Primitive)],
            additional_properties: None,
        }
    );
    assert_eq!(dangling_references(&document), Vec::<String>::new());
}
