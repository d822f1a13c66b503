//! Building a document from a registry.

use crate::closure::{
    close, is_closed, is_reference_chain, lemma_close_enters_each_name_once,
    lemma_close_is_complete, lemma_close_keeps_entries, lemma_close_reaches,
    lemma_close_skips_unmentioned, provider_names, resolve_references, resolved_schema,
};
use crate::references::mentions;
use crate::document::{
    Components, ComponentsView, Document, DocumentView, HttpMethod, PathItem, PathItemView,
    Response, ResponseView,
};
use crate::error_response::{
    build_error_response_from_schema, error_response_schema, ErrorResponse,
};
use crate::ordered::{
    distinct_keys, has_key, lemma_put_all, lookup, position, put_all, OrderedMap,
};
use crate::registry::{routes_view, Registry, RegistryView, RouteView, SchemaEntry};
use crate::schema::{entries_view, Schema, SchemaView};
use vstd::prelude::*;

verus! {

/// Why no document could be built.
#[derive(Debug, PartialEq, Eq)]
pub enum BuildError {
    /// The route entry at this place in the registry, counted from zero, has
    /// an empty path.
    EmptyPath { index: usize },
    /// Two route entries hold an operation for this method on this path.
    DuplicateRoute { path: String, method: HttpMethod },
}

/// A build error, taken by its view.
pub enum BuildErrorView {
    EmptyPath { index: nat },
    DuplicateRoute { path: Seq<char>, method: HttpMethod },
}

impl View for BuildError {
    type V = BuildErrorView;

    open spec fn view(&self) -> BuildErrorView {
        match self {
            BuildError::EmptyPath { index } => BuildErrorView::EmptyPath { index: *index as nat },
            BuildError::DuplicateRoute { path, method } => BuildErrorView::DuplicateRoute {
                path: path@,
                method: *method,
            },
        }
    }
}

/// The paths after entering the route entry at place `index`, with path `path`
/// and operations `item`.
///
/// A new path goes to the end. A path that is there takes the operations of
/// `item` beside its own. An empty path, and an operation for a method that
/// the path has an operation for already, are errors.
pub open spec fn with_route(
    paths: Seq<(Seq<char>, PathItemView)>,
    index: nat,
    path: Seq<char>,
    item: PathItemView,
) -> Result<Seq<(Seq<char>, PathItemView)>, BuildErrorView> {
    if path.len() == 0 {
        Err(BuildErrorView::EmptyPath { index })
    } else if has_key(paths, path) {
        let at = position(paths, path);
        match paths[at].1.shared_method(item) {
            Some(method) => Err(BuildErrorView::DuplicateRoute { path, method }),
            None => Ok(paths.update(at, (path, paths[at].1.merged(item)))),
        }
    } else {
        Ok(paths.push((path, item)))
    }
}

/// The paths of `routes`, entered first route first, or the first error met
/// on the way.
pub open spec fn collect_paths(routes: Seq<RouteView>) -> Result<
    Seq<(Seq<char>, PathItemView)>,
    BuildErrorView,
>
    decreases routes.len(),
{
    if routes.len() == 0 {
        Ok(Seq::empty())
    } else {
        match collect_paths(routes.drop_last()) {
            Ok(paths) => with_route(
                paths,
                (routes.len() - 1) as nat,
                routes.last().path,
                routes.last().item,
            ),
            Err(error) => Err(error),
        }
    }
}

/// The schemas that `routes` list, entered first route first. Where a name is
/// listed more than once, it stands where it was listed first, with the
/// schema that was listed last.
pub open spec fn collect_schemas(routes: Seq<RouteView>) -> Seq<(Seq<char>, SchemaView)>
    decreases routes.len(),
{
    if routes.len() == 0 {
        Seq::empty()
    } else {
        put_all(collect_schemas(routes.drop_last()), routes.last().schemas)
    }
}

/// The schema table of a document: the schemas that the routes list, then
/// `additional`, which may replace them, closed under references with the
/// help of `providers`.
pub open spec fn schema_table(
    registry: RegistryView,
    additional: Seq<(Seq<char>, SchemaView)>,
) -> Seq<(Seq<char>, SchemaView)> {
    close(direct_schemas(registry, additional), registry.providers)
}

/// The response table of a document: the error response, where one is given.
pub open spec fn response_table(error_response: Option<(Seq<char>, ResponseView)>) -> Seq<
    (Seq<char>, ResponseView),
> {
    match error_response {
        Some(entry) => seq![entry],
        None => Seq::empty(),
    }
}

/// The document that is built from a registry, or the error that prevents it.
pub open spec fn build_spec(
    registry: RegistryView,
    title: Seq<char>,
    version: Seq<char>,
    additional: Seq<(Seq<char>, SchemaView)>,
    error_response: Option<(Seq<char>, ResponseView)>,
) -> Result<DocumentView, BuildErrorView> {
    match collect_paths(registry.routes) {
        Ok(paths) => Ok(
            DocumentView {
                title,
                version,
                paths,
                components: ComponentsView {
                    schemas: schema_table(registry, additional),
                    responses: response_table(error_response),
                },
            },
        ),
        Err(error) => Err(error),
    }
}

/// The result of a build, taken by its view.
pub open spec fn outcome(result: Result<Document, BuildError>) -> Result<
    DocumentView,
    BuildErrorView,
> {
    match result {
        Ok(document) => Ok(document@),
        Err(error) => Err(error@),
    }
}

/// An error response, taken by its view.
pub open spec fn error_response_view(error_response: Option<(String, Response)>) -> Option<
    (Seq<char>, ResponseView),
> {
    match error_response {
        Some(entry) => Some((entry.0@, entry.1@)),
        None => None,
    }
}

/// A route of `routes` has an empty path.
pub open spec fn has_empty_path(routes: Seq<RouteView>) -> bool {
    exists|i: int| 0 <= i < routes.len() && (#[trigger] routes[i]).path.len() == 0
}

/// Two routes of `routes` hold an operation for one method on one path.
pub open spec fn has_duplicate_route(routes: Seq<RouteView>) -> bool {
    exists|i: int, j: int, method: HttpMethod|
        0 <= i < j < routes.len() && (#[trigger] routes[i]).path == (#[trigger] routes[j]).path
            && #[trigger] routes[i].item.shares(routes[j].item, method)
}

/// `paths` holds every operation of `routes`: each path of a route has an
/// entry, which holds each operation of the route for the method that the
/// route holds it for.
pub open spec fn keeps_operations(
    paths: Seq<(Seq<char>, PathItemView)>,
    routes: Seq<RouteView>,
) -> bool {
    forall|i: int|
        0 <= i < routes.len() ==> {
            let route = #[trigger] routes[i];
            &&& has_key(paths, route.path)
            &&& forall|method: HttpMethod|
                #[trigger] route.item.operation(method) is Some ==> paths[position(
                    paths,
                    route.path,
                )].1.operation(method) == route.item.operation(method)
        }
}

/// `paths` holds nothing but operations of `routes`: each entry stands for
/// the path of a route, and each of its operations is that of a route with
/// this path, for the same method.
pub open spec fn holds_only_operations(
    paths: Seq<(Seq<char>, PathItemView)>,
    routes: Seq<RouteView>,
) -> bool {
    forall|k: int|
        0 <= k < paths.len() ==> {
            let entry = #[trigger] paths[k];
            &&& exists|i: int| 0 <= i < routes.len() && (#[trigger] routes[i]).path == entry.0
            &&& forall|method: HttpMethod|
                #[trigger] entry.1.operation(method) is Some ==> exists|i: int|
                    0 <= i < routes.len() && (#[trigger] routes[i]).path == entry.0
                        && routes[i].item.operation(method) == entry.1.operation(method)
        }
}

/// Collecting the paths fails exactly where a route has an empty path or two
/// routes hold an operation for one method on one path. Where it succeeds, no
/// path stands twice, no operation of a route is lost, and none is made up.
pub proof fn lemma_collect_paths(routes: Seq<RouteView>)
    ensures
        collect_paths(routes) is Err <==> has_empty_path(routes) || has_duplicate_route(routes),
        collect_paths(routes) matches Ok(paths) ==> {
            &&& distinct_keys(paths)
            &&& keeps_operations(paths, routes)
            &&& holds_only_operations(paths, routes)
        },
    decreases routes.len(),
{
    if routes.len() > 0 {
        let front = routes.drop_last();
        let last = routes.len() - 1;
        let route = routes.last();
        lemma_collect_paths(front);
        assert(routes[last] == route);
        assert forall|i: int| 0 <= i < front.len() implies #[trigger] front[i] == routes[i] by {}
        if has_empty_path(front) {
            let i = choose|i: int| 0 <= i < front.len() && (#[trigger] front[i]).path.len() == 0;
            assert(routes[i].path.len() == 0);
        }
        if has_duplicate_route(front) {
            let (i, j, method) = choose|i: int, j: int, method: HttpMethod|
                0 <= i < j < front.len() && (#[trigger] front[i]).path == (#[trigger] front[j]).path
                    && #[trigger] front[i].item.shares(front[j].item, method);
            assert(routes[i].path == routes[j].path && routes[i].item.shares(
                routes[j].item,
                method,
            ));
        }
        match collect_paths(front) {
            Err(_) => {},
            Ok(before) => {
                lemma_with_route(routes, before);
            },
        }
    } else {
        let paths = Seq::<(Seq<char>, PathItemView)>::empty();
        assert(keeps_operations(paths, routes));
        assert(holds_only_operations(paths, routes));
    }
}

/// The step of `lemma_collect_paths`: entering the last route in the paths of
/// the routes before it.
proof fn lemma_with_route(routes: Seq<RouteView>, before: Seq<(Seq<char>, PathItemView)>)
    requires
        routes.len() > 0,
        collect_paths(routes.drop_last()) == Ok::<_, BuildErrorView>(before),
        !has_empty_path(routes.drop_last()),
        !has_duplicate_route(routes.drop_last()),
        distinct_keys(before),
        keeps_operations(before, routes.drop_last()),
        holds_only_operations(before, routes.drop_last()),
    ensures
        collect_paths(routes) is Err <==> has_empty_path(routes) || has_duplicate_route(routes),
        collect_paths(routes) matches Ok(paths) ==> {
            &&& distinct_keys(paths)
            &&& keeps_operations(paths, routes)
            &&& holds_only_operations(paths, routes)
        },
{
    let front = routes.drop_last();
    let last = routes.len() - 1;
    let route = routes.last();
    assert(routes[last] == route);
    assert forall|i: int| 0 <= i < front.len() implies #[trigger] front[i] == routes[i] by {}
    // A duplicate among all routes that is none among the first has the last route as its second.
    assert forall|i: int, j: int, method: HttpMethod|
        0 <= i < j < routes.len() && (#[trigger] routes[i]).path == (#[trigger] routes[j]).path
            && #[trigger] routes[i].item.shares(routes[j].item, method) implies j == last by {
        if j < last {
            assert(front[i].path == front[j].path && front[i].item.shares(front[j].item, method));
        }
    }
    assert forall|i: int| 0 <= i < routes.len() && (#[trigger] routes[i]).path.len()
        == 0 implies i == last by {
        if i < last {
            assert(front[i].path.len() == 0);
        }
    }
    if route.path.len() == 0 {
        assert(has_empty_path(routes));
    } else if has_key(before, route.path) {
        let at = position(before, route.path);
        crate::document::lemma_shared_method(before[at].1, route.item);
        match before[at].1.shared_method(route.item) {
            Some(method) => {
                let entry = before[at];
                assert(entry.1.operation(method) is Some);
                let i = choose|i: int|
                    0 <= i < front.len() && (#[trigger] front[i]).path == entry.0
                        && front[i].item.operation(method) == entry.1.operation(method);
                assert(routes[i].path == routes[last].path && routes[i].item.shares(
                    routes[last].item,
                    method,
                ));
            },
            None => {
                let merged = before[at].1.merged(route.item);
                let paths = before.update(at, (route.path, merged));
                assert(collect_paths(routes) == Ok::<_, BuildErrorView>(paths));
                assert forall|k: int| 0 <= k < paths.len() implies (#[trigger] paths[k]).0
                    == before[k].0 by {}
                assert(distinct_keys(paths)) by {
                    assert forall|i: int, j: int| 0 <= i < j < paths.len() implies (
                    #[trigger] paths[i]).0 != (#[trigger] paths[j]).0 by {
                        assert(before[i].0 != before[j].0);
                    }
                }
                assert forall|path: Seq<char>| has_key(before, path) implies has_key(paths, path)
                    && position(paths, path) == position(before, path) by {
                    let k = position(before, path);
                    assert(paths[k].0 == path);
                    crate::ordered::lemma_position_unique(paths, k);
                }
                assert(!has_duplicate_route(routes)) by {
                    if has_duplicate_route(routes) {
                        let (i, j, method) = choose|i: int, j: int, method: HttpMethod|
                            0 <= i < j < routes.len() && (#[trigger] routes[i]).path == (
                            #[trigger] routes[j]).path && #[trigger] routes[i].item.shares(
                                routes[j].item,
                                method,
                            );
                        assert(j == last);
                        assert(front[i].item.operation(method) is Some);
                        assert(before[at].1.shares(route.item, method));
                    }
                }
                assert(keeps_operations(paths, routes)) by {
                    assert forall|i: int| 0 <= i < routes.len() implies {
                        let each = #[trigger] routes[i];
                        &&& has_key(paths, each.path)
                        &&& forall|method: HttpMethod|
                            #[trigger] each.item.operation(method) is Some ==> paths[position(
                                paths,
                                each.path,
                            )].1.operation(method) == each.item.operation(method)
                    } by {
                        let each = routes[i];
                        if i < last {
                            assert(front[i] == each);
                        }
                        let k = position(before, each.path);
                        assert forall|method: HttpMethod| #[trigger]
                            each.item.operation(method) is Some implies paths[k].1.operation(method)
                            == each.item.operation(method) by {
                            crate::document::lemma_merged(before[at].1, route.item, method);
                            if i == last {
                                assert(!before[at].1.shares(route.item, method));
                            }
                        }
                    }
                }
                assert(holds_only_operations(paths, routes)) by {
                    assert forall|k: int| 0 <= k < paths.len() implies {
                        let entry = #[trigger] paths[k];
                        &&& exists|i: int|
                            0 <= i < routes.len() && (#[trigger] routes[i]).path == entry.0
                        &&& forall|method: HttpMethod|
                            #[trigger] entry.1.operation(method) is Some ==> exists|i: int|
                                0 <= i < routes.len() && (#[trigger] routes[i]).path == entry.0
                                    && routes[i].item.operation(method) == entry.1.operation(
                                    method,
                                )
                    } by {
                        let entry = paths[k];
                        let earlier = before[k];
                        let w = choose|i: int|
                            0 <= i < front.len() && (#[trigger] front[i]).path == earlier.0;
                        assert(routes[w].path == entry.0);
                        assert forall|method: HttpMethod| #[trigger]
                            entry.1.operation(method) is Some implies exists|i: int|
                            0 <= i < routes.len() && (#[trigger] routes[i]).path == entry.0
                                && routes[i].item.operation(method) == entry.1.operation(
                                method,
                            ) by {
                            crate::document::lemma_merged(before[at].1, route.item, method);
                            if earlier.1.operation(method) is Some {
                                let i = choose|i: int|
                                    0 <= i < front.len() && (#[trigger] front[i]).path == earlier.0
                                        && front[i].item.operation(method)
                                        == earlier.1.operation(method);
                                assert(routes[i].path == entry.0 && routes[i].item.operation(method)
                                    == entry.1.operation(method));
                            } else {
                                assert(k == at);
                                assert(routes[last].path == entry.0
                                    && routes[last].item.operation(method) == entry.1.operation(
                                    method,
                                ));
                            }
                        }
                    }
                }
            },
        }
    } else {
        let paths = before.push((route.path, route.item));
        let end = before.len() as int;
        assert(collect_paths(routes) == Ok::<_, BuildErrorView>(paths));
        assert(paths[end] == (route.path, route.item));
        assert forall|k: int| 0 <= k < before.len() implies #[trigger] paths[k] == before[k] by {}
        assert(distinct_keys(paths)) by {
            assert forall|i: int, j: int| 0 <= i < j < paths.len() implies (#[trigger] paths[i]).0
                != (#[trigger] paths[j]).0 by {
                assert(paths[i] == before[i]);
                if j < end {
                    assert(before[i].0 != before[j].0);
                }
            }
        }
        assert forall|path: Seq<char>| has_key(before, path) implies has_key(paths, path)
            && position(paths, path) == position(before, path) by {
            let k = position(before, path);
            assert(paths[k].0 == path);
            crate::ordered::lemma_position_unique(paths, k);
        }
        crate::ordered::lemma_position_unique(paths, end);
        assert(!has_duplicate_route(routes)) by {
            if has_duplicate_route(routes) {
                let (i, j, method) = choose|i: int, j: int, method: HttpMethod|
                    0 <= i < j < routes.len() && (#[trigger] routes[i]).path == (
                    #[trigger] routes[j]).path && #[trigger] routes[i].item.shares(
                        routes[j].item,
                        method,
                    );
                assert(j == last);
                assert(has_key(before, front[i].path));
            }
        }
        assert(keeps_operations(paths, routes)) by {
            assert forall|i: int| 0 <= i < routes.len() implies {
                let each = #[trigger] routes[i];
                &&& has_key(paths, each.path)
                &&& forall|method: HttpMethod|
                    #[trigger] each.item.operation(method) is Some ==> paths[position(
                        paths,
                        each.path,
                    )].1.operation(method) == each.item.operation(method)
            } by {
                if i < last {
                    assert(front[i] == routes[i]);
                    let k = position(before, routes[i].path);
                    assert(paths[k] == before[k]);
                }
            }
        }
        assert(holds_only_operations(paths, routes)) by {
            assert forall|k: int| 0 <= k < paths.len() implies {
                let entry = #[trigger] paths[k];
                &&& exists|i: int| 0 <= i < routes.len() && (#[trigger] routes[i]).path == entry.0
                &&& forall|method: HttpMethod|
                    #[trigger] entry.1.operation(method) is Some ==> exists|i: int|
                        0 <= i < routes.len() && (#[trigger] routes[i]).path == entry.0
                            && routes[i].item.operation(method) == entry.1.operation(method)
            } by {
                let entry = paths[k];
                if k < end {
                    let earlier = before[k];
                    let w = choose|i: int|
                        0 <= i < front.len() && (#[trigger] front[i]).path == earlier.0;
                    assert(routes[w].path == entry.0);
                    assert forall|method: HttpMethod| #[trigger]
                        entry.1.operation(method) is Some implies exists|i: int|
                        0 <= i < routes.len() && (#[trigger] routes[i]).path == entry.0
                            && routes[i].item.operation(method) == entry.1.operation(method) by {
                        let i = choose|i: int|
                            0 <= i < front.len() && (#[trigger] front[i]).path == earlier.0
                                && front[i].item.operation(method) == earlier.1.operation(method);
                        assert(routes[i].path == entry.0 && routes[i].item.operation(method)
                            == entry.1.operation(method));
                    }
                } else {
                    assert(routes[last].path == entry.0);
                    assert forall|method: HttpMethod| #[trigger]
                        entry.1.operation(method) is Some implies exists|i: int|
                        0 <= i < routes.len() && (#[trigger] routes[i]).path == entry.0
                            && routes[i].item.operation(method) == entry.1.operation(method) by {
                        assert(routes[last].path == entry.0 && routes[last].item.operation(method)
                            == entry.1.operation(method));
                    }
                }
            }
        }
    }
}

/// The schemas that routes list stand under distinct names.
pub proof fn lemma_collect_schemas(routes: Seq<RouteView>)
    ensures
        distinct_keys(collect_schemas(routes)),
    decreases routes.len(),
{
    if routes.len() > 0 {
        lemma_collect_schemas(routes.drop_last());
        lemma_put_all(collect_schemas(routes.drop_last()), routes.last().schemas);
    }
}

/// The schemas that a document starts from, before references are resolved:
/// those that the routes list, then `additional`.
pub open spec fn direct_schemas(
    registry: RegistryView,
    additional: Seq<(Seq<char>, SchemaView)>,
) -> Seq<(Seq<char>, SchemaView)> {
    put_all(collect_schemas(registry.routes), additional)
}

/// What a build gives.
///
/// It fails exactly where a route has an empty path or two routes hold an
/// operation for one method on one path. Where it succeeds, each path stands
/// once and holds the operations of its routes, no more and no less; the
/// schema table starts with the schemas that the routes and the caller gave,
/// each under its name once, is closed under references, and holds beside
/// the schemas that it started with no more entries than there are names of
/// providers. A schema that a route or the caller gave is never replaced by
/// that of a provider, and a schema that the caller gave stands under its
/// name whatever the routes list.
pub proof fn lemma_build_spec(
    registry: RegistryView,
    title: Seq<char>,
    version: Seq<char>,
    additional: Seq<(Seq<char>, SchemaView)>,
    error_response: Option<(Seq<char>, ResponseView)>,
)
    ensures
        build_spec(registry, title, version, additional, error_response) is Err
            <==> has_empty_path(registry.routes) || has_duplicate_route(registry.routes),
        build_spec(registry, title, version, additional, error_response) matches Ok(document) ==> {
            &&& document.title == title
            &&& document.version == version
            &&& distinct_keys(document.paths)
            &&& keeps_operations(document.paths, registry.routes)
            &&& holds_only_operations(document.paths, registry.routes)
            &&& distinct_keys(document.components.schemas)
            &&& direct_schemas(registry, additional).is_prefix_of(document.components.schemas)
            &&& is_closed(document.components.schemas, registry.providers)
            &&& document.components.schemas.len() <= direct_schemas(registry, additional).len()
                + provider_names(registry.providers).len()
            &&& forall|name: Seq<char>|
                has_key(direct_schemas(registry, additional), name) ==> lookup(
                    document.components.schemas,
                    name,
                ) == lookup(direct_schemas(registry, additional), name)
            &&& forall|i: int|
                0 <= i < additional.len() && (forall|j: int|
                    i < j < additional.len() ==> (#[trigger] additional[j]).0 != additional[i].0)
                    ==> lookup(document.components.schemas, (#[trigger] additional[i]).0) == Some(
                    additional[i].1,
                )
        },
{
    let direct = direct_schemas(registry, additional);
    lemma_collect_paths(registry.routes);
    lemma_collect_schemas(registry.routes);
    lemma_put_all(collect_schemas(registry.routes), additional);
    lemma_close_keeps_entries(direct, registry.providers);
    lemma_close_is_complete(direct, registry.providers);
    lemma_close_enters_each_name_once(direct, registry.providers);
    if collect_paths(registry.routes) is Ok {
        let table = schema_table(registry, additional);
        assert forall|i: int|
            0 <= i < additional.len() && (forall|j: int|
                i < j < additional.len() ==> (#[trigger] additional[j]).0
                    != additional[i].0) implies lookup(table, (#[trigger] additional[i]).0) == Some(
            additional[i].1,
        ) by {
            assert(has_key(additional, additional[i].0));
        }
    }
}

/// The schema table of a document is complete: every name that a chain of
/// references leads to, from a schema that a route lists or the caller gave
/// and through schemas with providers, has an entry, with the schema that it
/// stands for.
pub proof fn lemma_schema_table_reaches(
    registry: RegistryView,
    additional: Seq<(Seq<char>, SchemaView)>,
    chain: Seq<Seq<char>>,
)
    requires
        is_reference_chain(direct_schemas(registry, additional), registry.providers, chain),
    ensures
        has_key(schema_table(registry, additional), chain.last()),
        lookup(schema_table(registry, additional), chain.last()) == resolved_schema(
            direct_schemas(registry, additional),
            registry.providers,
            chain.last(),
        ),
{
    lemma_collect_schemas(registry.routes);
    lemma_put_all(collect_schemas(registry.routes), additional);
    lemma_close_reaches(direct_schemas(registry, additional), registry.providers, chain);
}

/// The schema table of a document leaves arrays alone: a name that no route
/// lists and the caller did not give, and that no schema of a route, of the
/// caller or of a provider refers to outside the items of arrays, has no
/// entry, whether a provider is registered for it or not.
pub proof fn lemma_schema_table_skips_unmentioned(
    registry: RegistryView,
    additional: Seq<(Seq<char>, SchemaView)>,
    name: Seq<char>,
)
    requires
        !has_key(direct_schemas(registry, additional), name),
        forall|i: int|
            0 <= i < direct_schemas(registry, additional).len() ==> !mentions(
                (#[trigger] direct_schemas(registry, additional)[i]).1,
                name,
            ),
        forall|i: int|
            0 <= i < registry.providers.len() ==> !mentions(
                (#[trigger] registry.providers[i]).1,
                name,
            ),
    ensures
        !has_key(schema_table(registry, additional), name),
{
    lemma_close_skips_unmentioned(direct_schemas(registry, additional), registry.providers, name);
}

/// An error among the first routes is the error of the whole list.
pub proof fn lemma_first_error_stays(routes: Seq<RouteView>, count: int)
    requires
        0 <= count <= routes.len(),
        collect_paths(routes.take(count)) is Err,
    ensures
        collect_paths(routes) == collect_paths(routes.take(count)),
    decreases routes.len() - count,
{
    if count < routes.len() {
        assert(routes.take(count + 1).drop_last() =~= routes.take(count));
        lemma_first_error_stays(routes, count + 1);
    } else {
        assert(routes.take(count) =~= routes);
    }
}

/// Enters the operations `item` under `path`, for the route entry at place
/// `index`. On an error the paths stay as they are.
pub fn add_route(
    paths: &mut OrderedMap<PathItem>,
    index: usize,
    path: &String,
    item: PathItem,
) -> (result: Result<(), BuildError>)
    ensures
        match with_route(old(paths)@, index as nat, path@, item@) {
            Ok(after) => result is Ok && final(paths)@ == after,
            Err(error) => result matches Err(found) && found@ == error && final(paths)@ == old(
                paths,
            )@,
        },
{
    if path.as_str().is_empty() {
        return Err(BuildError::EmptyPath { index });
    }
    match paths.index_of(path) {
        Some(at) => {
            match paths.value_at(at).shared_method(&item) {
                Some(method) => Err(BuildError::DuplicateRoute { path: path.clone(), method }),
                None => {
                    let mut existing = paths.replace_at(at, PathItem::empty());
                    existing.merge_operations(item);
                    paths.replace_at(at, existing);
                    assert(paths@ =~= old(paths)@.update(
                        at as int,
                        (path@, old(paths)@[at as int].1.merged(item@)),
                    ));
                    Ok(())
                },
            }
        },
        None => {
            paths.insert(path.clone(), item);
            Ok(())
        },
    }
}

/// Enters each of `entries` in `schemas`, first to last. A name that has an
/// entry keeps its place and takes the new schema.
pub fn insert_all(schemas: &mut OrderedMap<Schema>, entries: Vec<SchemaEntry>)
    ensures
        final(schemas)@ == put_all(old(schemas)@, entries_view(entries)),
{
    let ghost all = entries_view(entries);
    assert(all.take(0) =~= Seq::<(Seq<char>, SchemaView)>::empty());
    for entry in it: entries.into_iter()
        invariant
            all == entries_view(entries),
            it.seq() == entries@,
            schemas@ == put_all(old(schemas)@, all.take(it.index() as int)),
    {
        proof {
            let i = it.index() as int;
            assert(all.take(i + 1).drop_last() =~= all.take(i));
            assert(all.take(i + 1).last() == all[i]);
            assert(entry == entries@[i]);
        }
        schemas.insert(entry.0, entry.1);
    }
    assert(all.take(all.len() as int) =~= all);
}

/// Builds the document of `registry`.
///
/// The paths are entered route by route, in the order of registration; an
/// empty path, and a second operation for one method on one path, end the
/// build with an error. The schema table takes the schemas that the routes
/// list, then `additional_schemas`, and is then closed under references: each
/// name that a schema of the table refers to, and that a provider is
/// registered for, gets an entry. A reference without a provider is left
/// dangling. The response table holds `error_response`, where one is given.
///
/// The result depends on the views of the arguments alone: a second build
/// from the same registry gives the same document.
pub fn build_openapi_with_components<
    I: Fn() -> PathItem,
    S: Fn() -> Vec<SchemaEntry>,
    P: Fn() -> Schema,
>(
    registry: &Registry<I, S, P>,
    title: &str,
    version: &str,
    additional_schemas: Vec<SchemaEntry>,
    error_response: Option<(String, Response)>,
) -> (result: Result<Document, BuildError>)
    requires
        registry.wf(),
    ensures
        outcome(result) == build_spec(
            registry@,
            title@,
            version@,
            entries_view(additional_schemas),
            error_response_view(error_response),
        ),
        result is Err <==> has_empty_path(registry@.routes) || has_duplicate_route(
            registry@.routes,
        ),
        result matches Ok(document) ==> is_closed(
            document@.components.schemas,
            registry@.providers,
        ),
{
    proof {
        lemma_build_spec(
            registry@,
            title@,
            version@,
            entries_view(additional_schemas),
            error_response_view(error_response),
        );
    }
    let mut paths: OrderedMap<PathItem> = OrderedMap::new();
    let mut schemas: OrderedMap<Schema> = OrderedMap::new();
    let routes = registry.iterate_routes();
    let ghost all = registry@.routes;
    assert(all.take(0) =~= Seq::<RouteView>::empty());
    let mut i: usize = 0;
    while i < routes.len()
        invariant
            i <= routes.len(),
            all == registry@.routes,
            all == routes_view(*routes),
            forall|k: int| 0 <= k < routes.len() ==> (#[trigger] routes[k]).wf(),
            collect_paths(all.take(i as int)) == Ok::<_, BuildErrorView>(paths@),
            schemas@ == collect_schemas(all.take(i as int)),
            collect_paths(all) is Err <==> has_empty_path(all) || has_duplicate_route(all),
        decreases routes.len() - i,
    {
        let entry = &routes[i];
        proof {
            assert(all.take(i + 1).drop_last() =~= all.take(i as int));
            assert(all.take(i + 1).last() == entry.route());
        }
        match add_route(&mut paths, i, &entry.path, entry.produce_item()) {
            Ok(()) => {},
            Err(error) => {
                proof {
                    lemma_first_error_stays(all, i + 1);
                }
                return Err(error);
            },
        }
        insert_all(&mut schemas, entry.produce_schemas());
        i += 1;
    }
    assert(all.take(i as int) =~= all);
    insert_all(&mut schemas, additional_schemas);
    resolve_references(&mut schemas, registry.iterate_schema_providers());
    let mut responses: OrderedMap<Response> = OrderedMap::new();
    match error_response {
        Some(entry) => {
            assert(!has_key(responses@, entry.0@)) by {
                if has_key(responses@, entry.0@) {
                    let k = position(responses@, entry.0@);
                    assert(0 <= k < responses@.len());
                }
            }
            responses.insert(entry.0, entry.1);
            assert(responses@ =~= seq![(entry.0@, entry.1@)]);
        },
        None => {},
    }
    Ok(
        Document {
            title: title.to_owned(),
            version: version.to_owned(),
            paths,
            components: Components { schemas, responses },
        },
    )
}

/// Builds the document of `registry` from its entries alone: no schemas
/// beside those of the routes and providers, and no error response.
pub fn build_openapi<I: Fn() -> PathItem, S: Fn() -> Vec<SchemaEntry>, P: Fn() -> Schema>(
    registry: &Registry<I, S, P>,
    title: &str,
    version: &str,
) -> (result: Result<Document, BuildError>)
    requires
        registry.wf(),
    ensures
        outcome(result) == build_spec(registry@, title@, version@, Seq::empty(), None),
        result is Err <==> has_empty_path(registry@.routes) || has_duplicate_route(
            registry@.routes,
        ),
        result matches Ok(document) ==> is_closed(
            document@.components.schemas,
            registry@.providers,
        ),
{
    let additional: Vec<SchemaEntry> = Vec::new();
    assert(entries_view(additional) =~= Seq::<(Seq<char>, SchemaView)>::empty());
    build_openapi_with_components(registry, title, version, additional, None)
}

/// Builds the document of `registry` with the standard error response among
/// its responses, under the name `ErrorResponse`.
pub fn build_openapi_with_error_response<
    I: Fn() -> PathItem,
    S: Fn() -> Vec<SchemaEntry>,
    P: Fn() -> Schema,
>(registry: &Registry<I, S, P>, title: &str, version: &str) -> (result: Result<
    Document,
    BuildError,
>)
    requires
        registry.wf(),
    ensures
        outcome(result) == build_spec(
            registry@,
            title@,
            version@,
            Seq::empty(),
            Some(
                (
                    "ErrorResponse"@,
                    ResponseView {
                        description: "Error response"@,
                        content: seq![("application/json"@, error_response_schema())],
                    },
                ),
            ),
        ),
        result is Err <==> has_empty_path(registry@.routes) || has_duplicate_route(
            registry@.routes,
        ),
        result matches Ok(document) ==> is_closed(
            document@.components.schemas,
            registry@.providers,
        ),
{
    let additional: Vec<SchemaEntry> = Vec::new();
    assert(entries_view(additional) =~= Seq::<(Seq<char>, SchemaView)>::empty());
    let response = build_error_response_from_schema(ErrorResponse::schema());
    build_openapi_with_components(
        registry,
        title,
        version,
        additional,
        Some((ErrorResponse::name(), response)),
    )
}

/// A build is repeatable: two results that a build may give for one
/// registry and the same further arguments are the same result, so that two
/// documents built from a registry that has not changed hold the same paths
/// and the same schemas, in the same order.
pub proof fn lemma_build_is_repeatable(
    first: Result<Document, BuildError>,
    second: Result<Document, BuildError>,
    registry: RegistryView,
    title: Seq<char>,
    version: Seq<char>,
    additional: Seq<(Seq<char>, SchemaView)>,
    error_response: Option<(Seq<char>, ResponseView)>,
)
    requires
        outcome(first) == build_spec(registry, title, version, additional, error_response),
        outcome(second) == build_spec(registry, title, version, additional, error_response),
    ensures
        outcome(first) == outcome(second),
        first is Ok <==> second is Ok,
        first matches Ok(one) ==> second matches Ok(other) ==> {
            &&& one@.paths == other@.paths
            &&& one@.components.schemas == other@.components.schemas
            &&& one@.components.responses == other@.components.responses
        },
{
}

} // verus!
