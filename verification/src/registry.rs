//! The route and schema-provider entries that a document is built from.
//!
//! An entry does not hold its operations or schemas: it holds a producer that
//! is called when a document is built. A producer must be callable at any
//! time and must describe the same thing each time it is called. What it
//! describes is what any of its calls returns; the contracts name it without
//! calling it, and a call that has returned shows what it is.

use crate::document::{PathItem, PathItemView};
use crate::schema::{entries_view, Schema, SchemaView};
use vstd::prelude::*;

verus! {

/// A schema and the name under which it is entered in a document.
pub type SchemaEntry = (String, Schema);

/// One declared route: its path, and producers of its operations and of the
/// named schemas that its operations use directly.
pub struct ApiEntry<I, S> {
    pub path: String,
    pub path_item: I,
    pub schemas: S,
}

/// What a route entry is to the contracts of this crate: its path, and what
/// its producers describe.
pub struct RouteView {
    pub path: Seq<char>,
    pub item: PathItemView,
    pub schemas: Seq<(Seq<char>, SchemaView)>,
}

impl<I: Fn() -> PathItem, S: Fn() -> Vec<SchemaEntry>> ApiEntry<I, S> {
    /// Both producers can be called, and each describes one thing only.
    pub open spec fn wf(&self) -> bool {
        &&& call_requires(self.path_item, ())
        &&& call_requires(self.schemas, ())
        &&& forall|a: PathItem, b: PathItem|
            call_ensures(self.path_item, (), a) && call_ensures(self.path_item, (), b) ==> a@
                == b@
        &&& forall|a: Vec<SchemaEntry>, b: Vec<SchemaEntry>|
            call_ensures(self.schemas, (), a) && call_ensures(self.schemas, (), b)
                ==> entries_view(a) == entries_view(b)
    }

    /// A call of the producer of the operations may return `item`.
    pub open spec fn may_produce(&self, item: PathItemView) -> bool {
        exists|produced: PathItem|
            #[trigger] call_ensures(self.path_item, (), produced) && produced@ == item
    }

    /// A call of the producer of the schema list may return `list`.
    pub open spec fn may_list(&self, list: Seq<(Seq<char>, SchemaView)>) -> bool {
        exists|produced: Vec<SchemaEntry>|
            #[trigger] call_ensures(self.schemas, (), produced) && entries_view(produced) == list
    }

    /// The operations that the entry describes.
    pub open spec fn item(&self) -> PathItemView {
        choose|item: PathItemView| self.may_produce(item)
    }

    /// The named schemas that the entry lists.
    pub open spec fn schema_list(&self) -> Seq<(Seq<char>, SchemaView)> {
        choose|list: Seq<(Seq<char>, SchemaView)>| self.may_list(list)
    }

    /// The route that the entry declares: its path, and what its producers
    /// describe.
    pub open spec fn route(&self) -> RouteView {
        RouteView { path: self.path@, item: self.item(), schemas: self.schema_list() }
    }

    /// Calls the producer of the operations.
    pub fn produce_item(&self) -> (item: PathItem)
        requires
            self.wf(),
        ensures
            item@ == self.item(),
            call_ensures(self.path_item, (), item),
    {
        let item = (self.path_item)();
        assert(self.may_produce(item@));
        item
    }

    /// Calls the producer of the schema list.
    pub fn produce_schemas(&self) -> (list: Vec<SchemaEntry>)
        requires
            self.wf(),
        ensures
            entries_view(list) == self.schema_list(),
            call_ensures(self.schemas, (), list),
    {
        let list = (self.schemas)();
        assert(self.may_list(entries_view(list)));
        list
    }
}

/// A named schema that is produced when a reference to the name has to be
/// resolved.
pub struct SchemaProvider<P> {
    pub name: String,
    pub provider: P,
}

impl<P: Fn() -> Schema> SchemaProvider<P> {
    /// The producer can be called, and describes one schema only.
    pub open spec fn wf(&self) -> bool {
        &&& call_requires(self.provider, ())
        &&& forall|a: Schema, b: Schema|
            call_ensures(self.provider, (), a) && call_ensures(self.provider, (), b) ==> a@ == b@
    }

    /// A call of the producer may return `schema`.
    pub open spec fn may_produce(&self, schema: SchemaView) -> bool {
        exists|produced: Schema|
            #[trigger] call_ensures(self.provider, (), produced) && produced@ == schema
    }

    /// The schema that the provider describes.
    pub open spec fn schema(&self) -> SchemaView {
        choose|schema: SchemaView| self.may_produce(schema)
    }

    /// The name of the provider with the schema that it describes.
    pub open spec fn named_schema(&self) -> (Seq<char>, SchemaView) {
        (self.name@, self.schema())
    }

    /// Calls the producer.
    pub fn produce(&self) -> (schema: Schema)
        requires
            self.wf(),
        ensures
            schema@ == self.schema(),
            call_ensures(self.provider, (), schema),
    {
        let schema = (self.provider)();
        assert(self.may_produce(schema@));
        schema
    }
}

/// The registered entries, in the order of their registration.
pub struct RegistryView {
    pub routes: Seq<RouteView>,
    pub providers: Seq<(Seq<char>, SchemaView)>,
}

/// A list of route entries, each taken by its view.
pub open spec fn routes_view<I: Fn() -> PathItem, S: Fn() -> Vec<SchemaEntry>>(
    routes: Vec<ApiEntry<I, S>>,
) -> Seq<RouteView> {
    Seq::new(routes.len() as nat, |i: int| routes[i].route())
}

/// A list of provider entries, each taken by its view.
pub open spec fn providers_view<P: Fn() -> Schema>(providers: Vec<SchemaProvider<P>>) -> Seq<
    (Seq<char>, SchemaView),
> {
    Seq::new(providers.len() as nat, |i: int| providers[i].named_schema())
}

/// An append-only collection of route and provider entries.
///
/// Entries are only ever added, and any entry is taken: two providers may
/// share a name, and two routes a path.
pub struct Registry<I, S, P> {
    routes: Vec<ApiEntry<I, S>>,
    providers: Vec<SchemaProvider<P>>,
}

impl<I: Fn() -> PathItem, S: Fn() -> Vec<SchemaEntry>, P: Fn() -> Schema> View for Registry<
    I,
    S,
    P,
> {
    type V = RegistryView;

    closed spec fn view(&self) -> RegistryView {
        RegistryView {
            routes: routes_view(self.routes),
            providers: providers_view(self.providers),
        }
    }
}

impl<I: Fn() -> PathItem, S: Fn() -> Vec<SchemaEntry>, P: Fn() -> Schema> Registry<I, S, P> {
    /// Every registered entry is well formed.
    pub closed spec fn wf(&self) -> bool {
        &&& forall|i: int| 0 <= i < self.routes.len() ==> (#[trigger] self.routes[i]).wf()
        &&& forall|i: int| 0 <= i < self.providers.len() ==> (#[trigger] self.providers[i]).wf()
    }

    /// A registry without entries.
    pub fn new() -> (registry: Self)
        ensures
            registry.wf(),
            registry@.routes == Seq::<RouteView>::empty(),
            registry@.providers == Seq::<(Seq<char>, SchemaView)>::empty(),
    {
        let registry = Registry { routes: Vec::new(), providers: Vec::new() };
        assert(registry@.routes =~= Seq::<RouteView>::empty());
        assert(registry@.providers =~= Seq::<(Seq<char>, SchemaView)>::empty());
        registry
    }

    /// Adds a route entry after those that are registered.
    pub fn register_route(&mut self, entry: ApiEntry<I, S>)
        ensures
            final(self)@.routes == old(self)@.routes.push(entry.route()),
            final(self)@.providers == old(self)@.providers,
            final(self).wf() == (old(self).wf() && entry.wf()),
    {
        self.routes.push(entry);
        assert(self@.routes =~= old(self)@.routes.push(entry.route()));
        assert(entry == self.routes[self.routes.len() - 1]);
        assert(forall|i: int|
            0 <= i < old(self).routes.len() ==> self.routes[i] == old(self).routes[i]);
    }

    /// Adds a provider entry after those that are registered.
    pub fn register_schema_provider(&mut self, entry: SchemaProvider<P>)
        ensures
            final(self)@.routes == old(self)@.routes,
            final(self)@.providers == old(self)@.providers.push(entry.named_schema()),
            final(self).wf() == (old(self).wf() && entry.wf()),
    {
        self.providers.push(entry);
        assert(self@.providers =~= old(self)@.providers.push(entry.named_schema()));
        assert(entry == self.providers[self.providers.len() - 1]);
        assert(forall|i: int|
            0 <= i < old(self).providers.len() ==> self.providers[i] == old(self).providers[i]);
    }

    /// The route entries in the order of their registration.
    pub fn iterate_routes(&self) -> (routes: &Vec<ApiEntry<I, S>>)
        ensures
            routes_view(*routes) == self@.routes,
            self.wf() ==> forall|i: int| 0 <= i < routes.len() ==> (#[trigger] routes[i]).wf(),
    {
        &self.routes
    }

    /// The provider entries in the order of their registration.
    pub fn iterate_schema_providers(&self) -> (providers: &Vec<SchemaProvider<P>>)
        ensures
            providers_view(*providers) == self@.providers,
            self.wf() ==> forall|i: int|
                0 <= i < providers.len() ==> (#[trigger] providers[i]).wf(),
    {
        &self.providers
    }
}

} // verus!
