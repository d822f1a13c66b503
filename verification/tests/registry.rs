use food_openapi_rs::{
    ApiEntry, HttpMethod, Operation, PathItem, Registry, Schema, SchemaEntry, SchemaProvider,
};

type Entries = Registry<fn() -> PathItem, fn() -> Vec<SchemaEntry>, fn() -> Schema>;

fn no_operations() -> PathItem {
    PathItem::empty()
}

fn no_schemas() -> Vec<SchemaEntry> {
    Vec::new()
}

fn primitive() -> Schema {
    Schema::Primitive
}

fn reference_to_a() -> Schema {
    Schema::Reference("A".to_string())
}

#[test]
fn new_registry_has_no_entries() {
    let registry: Entries = Registry::new();
    assert_eq!(registry.iterate_routes().len(), 0);
    assert_eq!(registry.iterate_schema_providers().len(), 0);
}

#[test]
fn routes_are_iterated_in_registration_order() {
    let mut registry: Entries = Registry::new();
    registry.register_route(ApiEntry {
        path: "/b".to_string(),
        path_item: no_operations,
        schemas: no_schemas,
    });
    registry.register_route(ApiEntry {
        path: "/a".to_string(),
        path_item: no_operations,
        schemas: no_schemas,
    });
    let routes = registry.iterate_routes();
    assert_eq!(routes.len(), 2);
    assert_eq!(routes[0].path, "/b");
    assert_eq!(routes[1].path, "/a");
    assert_eq!(registry.iterate_schema_providers().len(), 0);
}

#[test]
fn providers_are_iterated_in_registration_order() {
    let mut registry: Entries = Registry::new();
    registry.register_schema_provider(SchemaProvider { name: "B".to_string(), provider: primitive });
    registry.register_schema_provider(SchemaProvider {
        name: "A".to_string(),
        provider: reference_to_a,
    });
    let providers = registry.iterate_schema_providers();
    assert_eq!(providers.len(), 2);
    assert_eq!(providers[0].name, "B");
    assert_eq!(providers[1].name, "A");
    assert_eq!(providers[0].produce(), Schema::Primitive);
    assert_eq!(providers[1].produce(), Schema::Reference("A".to_string()));
}

#[test]
fn registration_enforces_no_uniqueness() {
    let mut registry: Entries = Registry::new();
    registry.register_schema_provider(SchemaProvider { name: "A".to_string(), provider: primitive });
    registry.register_schema_provider(SchemaProvider {
        name: "A".to_string(),
        provider: reference_to_a,
    });
    registry.register_route(ApiEntry {
        path: "/a".to_string(),
        path_item: no_operations,
        schemas: no_schemas,
    });
    registry.register_route(ApiEntry {
        path: "/a".to_string(),
        path_item: no_operations,
        schemas: no_schemas,
    });
    assert_eq!(registry.iterate_schema_providers().len(), 2);
    assert_eq!(registry.iterate_routes().len(), 2);
}

#[test]
fn producers_are_called_on_demand_and_repeatably() {
    let entry: ApiEntry<fn() -> PathItem, fn() -> Vec<SchemaEntry>> =
        ApiEntry { path: "/a".to_string(), path_item: one_get, schemas: one_schema };
    assert_eq!(entry.produce_item(), entry.produce_item());
    assert_eq!(entry.produce_schemas(), vec![("A".to_string(), Schema::Primitive)]);
    assert_eq!(entry.produce_schemas(), entry.produce_schemas());
}

fn one_get() -> PathItem {
    PathItem::new(
        HttpMethod::Get,
        Operation { parameters: Vec::new(), request_body: None, responses: Vec::new() },
    )
}

fn one_schema() -> Vec<SchemaEntry> {
    vec![("A".to_string(), Schema::Primitive)]
}
