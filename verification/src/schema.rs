//! The structural description of a data shape.

use vstd::prelude::*;

verus! {

/// The description of a data shape: a reference to a named schema, a composite
/// of further schemas, or a primitive.
#[derive(Debug, PartialEq, Eq)]
pub enum Schema {
    /// A reference to the schema registered under this name.
    Reference(String),
    /// An object with named properties and, optionally, a schema for every
    /// further property.
    Object { properties: Vec<(String, Schema)>, additional_properties: Option<Box<Schema>> },
    /// An array whose items have the given schema.
    Array(Box<Schema>),
    /// Exactly one of the member schemas applies.
    OneOf(Vec<Schema>),
    /// At least one of the member schemas applies.
    AnyOf(Vec<Schema>),
    /// All of the member schemas apply.
    AllOf(Vec<Schema>),
    /// A value without parts: a string, a number, a boolean.
    Primitive,
}

/// What a `Schema` is to the contracts of this crate.
pub enum SchemaView {
    Reference(Seq<char>),
    Object {
        properties: Seq<(Seq<char>, SchemaView)>,
        additional_properties: Option<Box<SchemaView>>,
    },
    Array(Box<SchemaView>),
    OneOf(Seq<SchemaView>),
    AnyOf(Seq<SchemaView>),
    AllOf(Seq<SchemaView>),
    Primitive,
}

/// A list of schemas, each taken by its view.
pub open spec fn members_view(items: Vec<Schema>) -> Seq<SchemaView>
    decreases items, 1nat,
{
    Seq::new(
        items.len() as nat,
        |i: int|
            if 0 <= i < items.len() {
                schema_view(items[i])
            } else {
                SchemaView::Primitive
            },
    )
}

/// A list of named schemas, each name and schema taken by its view.
pub open spec fn entries_view(entries: Vec<(String, Schema)>) -> Seq<(Seq<char>, SchemaView)>
    decreases entries, 1nat,
{
    Seq::new(
        entries.len() as nat,
        |i: int|
            if 0 <= i < entries.len() {
                (entries[i].0@, schema_view(entries[i].1))
            } else {
                (Seq::empty(), SchemaView::Primitive)
            },
    )
}

/// The view of a schema, variant by variant.
pub open spec fn schema_view(schema: Schema) -> SchemaView
    decreases schema, 0nat,
{
    match schema {
        Schema::Reference(name) => SchemaView::Reference(name@),
        Schema::Object { properties, additional_properties } => SchemaView::Object {
            properties: entries_view(properties),
            additional_properties: match additional_properties {
                Some(inner) => Some(Box::new(schema_view(*inner))),
                None => None,
            },
        },
        Schema::Array(items) => SchemaView::Array(Box::new(schema_view(*items))),
        Schema::OneOf(members) => SchemaView::OneOf(members_view(members)),
        Schema::AnyOf(members) => SchemaView::AnyOf(members_view(members)),
        Schema::AllOf(members) => SchemaView::AllOf(members_view(members)),
        Schema::Primitive => SchemaView::Primitive,
    }
}

impl View for Schema {
    type V = SchemaView;

    open spec fn view(&self) -> SchemaView {
        schema_view(*self)
    }
}

/// A copy of a list of schemas.
pub fn clone_members(items: &Vec<Schema>) -> (copy: Vec<Schema>)
    ensures
        members_view(copy) == members_view(*items),
    decreases *items, 1nat,
{
    let mut copy: Vec<Schema> = Vec::new();
    let mut i: usize = 0;
    while i < items.len()
        invariant
            i <= items.len(),
            copy.len() == i,
            forall|k: int| 0 <= k < i ==> schema_view(#[trigger] copy[k]) == schema_view(items[k]),
        decreases items.len() - i,
    {
        copy.push(items[i].clone());
        i += 1;
    }
    assert(members_view(copy) =~= members_view(*items));
    copy
}

/// A copy of a list of named schemas.
pub fn clone_entries(entries: &Vec<(String, Schema)>) -> (copy: Vec<(String, Schema)>)
    ensures
        entries_view(copy) == entries_view(*entries),
    decreases *entries, 1nat,
{
    let mut copy: Vec<(String, Schema)> = Vec::new();
    let mut i: usize = 0;
    while i < entries.len()
        invariant
            i <= entries.len(),
            copy.len() == i,
            forall|k: int|
                0 <= k < i ==> (#[trigger] copy[k]).0@ == entries[k].0@ && schema_view(copy[k].1)
                    == schema_view(entries[k].1),
        decreases entries.len() - i,
    {
        copy.push((entries[i].0.clone(), entries[i].1.clone()));
        i += 1;
    }
    assert(entries_view(copy) =~= entries_view(*entries));
    copy
}

impl Clone for Schema {
    /// A copy with the same view.
    fn clone(&self) -> (copy: Self)
        ensures
            copy@ == self@,
        decreases *self, 0nat,
    {
        match self {
            Schema::Reference(name) => Schema::Reference(name.clone()),
            Schema::Object { properties, additional_properties } => {
                let inner = match additional_properties {
                    Some(inner) => Some(Box::new((**inner).clone())),
                    None => None,
                };
                let properties = clone_entries(properties);
                Schema::Object { properties, additional_properties: inner }
            },
            Schema::Array(items) => Schema::Array(Box::new((**items).clone())),
            Schema::OneOf(members) => Schema::OneOf(clone_members(members)),
            Schema::AnyOf(members) => Schema::AnyOf(clone_members(members)),
            Schema::AllOf(members) => Schema::AllOf(clone_members(members)),
            Schema::Primitive => Schema::Primitive,
        }
    }
}

} // verus!
