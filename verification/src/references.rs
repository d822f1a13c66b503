//! Which named schemas a schema refers to.
//!
//! A schema refers to a name where a `Reference` to it stands in the schema
//! itself, in a property of an object, in its schema for additional
//! properties, or in a member of a `OneOf`, `AnyOf` or `AllOf`. A property or a
//! member that is written out in place is looked into in the same way. The
//! items of an array are not looked into. References are not followed: the
//! schema that a name stands for is looked at when that schema itself is
//! handed in.

use crate::schema::{entries_view, members_view, Schema, SchemaView};
use vstd::prelude::*;
use vstd::string::StringExecFns;

verus! {

/// `schema` refers to `name` somewhere outside the items of an array.
pub open spec fn mentions(schema: SchemaView, name: Seq<char>) -> bool
    decreases schema,
{
    match schema {
        SchemaView::Reference(target) => target == name,
        SchemaView::Object { properties, additional_properties } => {
            ||| exists|i: int|
                0 <= i < properties.len() && mentions((#[trigger] properties[i]).1, name)
            ||| match additional_properties {
                Some(inner) => mentions(*inner, name),
                None => false,
            }
        },
        SchemaView::Array(_) => false,
        SchemaView::OneOf(members) => exists|i: int|
            0 <= i < members.len() && mentions(#[trigger] members[i], name),
        SchemaView::AnyOf(members) => exists|i: int|
            0 <= i < members.len() && mentions(#[trigger] members[i], name),
        SchemaView::AllOf(members) => exists|i: int|
            0 <= i < members.len() && mentions(#[trigger] members[i], name),
        SchemaView::Primitive => false,
    }
}

/// Every reference of `schema` outside array items, in reading order:
/// properties first to last, then the additional properties; members first to
/// last. A name referred to twice is listed twice.
pub open spec fn ref_list(schema: SchemaView) -> Seq<Seq<char>>
    decreases schema, 0nat,
{
    match schema {
        SchemaView::Reference(target) => seq![target],
        SchemaView::Object { properties, additional_properties } => entry_refs(
            properties,
            properties.len(),
        ) + match additional_properties {
            Some(inner) => ref_list(*inner),
            None => Seq::empty(),
        },
        SchemaView::Array(_) => Seq::empty(),
        SchemaView::OneOf(members) => member_refs(members, members.len()),
        SchemaView::AnyOf(members) => member_refs(members, members.len()),
        SchemaView::AllOf(members) => member_refs(members, members.len()),
        SchemaView::Primitive => Seq::empty(),
    }
}

/// The references of the first `count` schemas of `members`, in reading order.
pub open spec fn member_refs(members: Seq<SchemaView>, count: nat) -> Seq<Seq<char>>
    decreases members, count,
{
    if count == 0 || count > members.len() {
        Seq::empty()
    } else {
        member_refs(members, (count - 1) as nat) + ref_list(members[count - 1])
    }
}

/// The references of the schemas of the first `count` entries, in reading
/// order.
pub open spec fn entry_refs(entries: Seq<(Seq<char>, SchemaView)>, count: nat) -> Seq<
    Seq<char>,
>
    decreases entries, count,
{
    if count == 0 || count > entries.len() {
        Seq::empty()
    } else {
        entry_refs(entries, (count - 1) as nat) + ref_list(entries[count - 1].1)
    }
}

/// `found` with `name` added at the end, unless it is there already.
pub open spec fn add_one(found: Seq<Seq<char>>, name: Seq<char>) -> Seq<Seq<char>> {
    if found.contains(name) {
        found
    } else {
        found.push(name)
    }
}

/// `found` after adding each name of `more`, first to last.
pub open spec fn add_all(found: Seq<Seq<char>>, more: Seq<Seq<char>>) -> Seq<Seq<char>>
    decreases more.len(),
{
    if more.len() == 0 {
        found
    } else {
        add_one(add_all(found, more.drop_last()), more.last())
    }
}

/// The names that `schema` refers to outside array items, each once, in the
/// order in which they are first met.
pub open spec fn ref_order(schema: SchemaView) -> Seq<Seq<char>> {
    add_all(Seq::empty(), ref_list(schema))
}

/// A list of strings, each taken by its view.
pub open spec fn names(list: Seq<String>) -> Seq<Seq<char>> {
    Seq::new(list.len(), |i: int| list[i]@)
}

/// Adding two lists one after the other is adding their concatenation.
pub proof fn lemma_add_all_concat(found: Seq<Seq<char>>, a: Seq<Seq<char>>, b: Seq<Seq<char>>)
    ensures
        add_all(found, a + b) == add_all(add_all(found, a), b),
    decreases b.len(),
{
    if b.len() == 0 {
        assert(a + b =~= a);
    } else {
        assert((a + b).drop_last() =~= a + b.drop_last());
        lemma_add_all_concat(found, a, b.drop_last());
    }
}

/// Adding names keeps what was found in place, adds exactly the new names,
/// and never lists a name twice.
pub proof fn lemma_add_all(found: Seq<Seq<char>>, more: Seq<Seq<char>>)
    ensures
        found.is_prefix_of(add_all(found, more)),
        found.no_duplicates() ==> add_all(found, more).no_duplicates(),
        forall|name: Seq<char>|
            add_all(found, more).contains(name) <==> found.contains(name) || more.contains(name),
    decreases more.len(),
{
    if more.len() > 0 {
        let before = add_all(found, more.drop_last());
        let after = add_all(found, more);
        lemma_add_all(found, more.drop_last());
        assert forall|name: Seq<char>| after.contains(name) <==> found.contains(name)
            || more.contains(name) by {
            if more.contains(name) {
                let i = choose|i: int| 0 <= i < more.len() && more[i] == name;
                if i < more.len() - 1 {
                    assert(more.drop_last()[i] == name);
                }
            }
            if more.drop_last().contains(name) {
                let front = more.drop_last();
                let i = choose|i: int| 0 <= i < front.len() && front[i] == name;
                assert(more[i] == name);
            }
            if before.contains(name) {
                let i = choose|i: int| 0 <= i < before.len() && before[i] == name;
                assert(after[i] == name);
            }
            if !before.contains(more.last()) {
                assert(after[before.len() as int] == more.last());
                if after.contains(name) {
                    let i = choose|i: int| 0 <= i < after.len() && after[i] == name;
                    if i < before.len() {
                        assert(before[i] == name);
                    }
                }
            }
            assert(more[more.len() - 1] == more.last());
        }
    }
}

/// The names listed for the first `count` members are those that one of these
/// members refers to.
pub proof fn lemma_member_refs(members: Seq<SchemaView>, count: nat, name: Seq<char>)
    requires
        count <= members.len(),
    ensures
        member_refs(members, count).contains(name) <==> exists|i: int|
            0 <= i < count && mentions(#[trigger] members[i], name),
    decreases members, count,
{
    if count > 0 {
        let head = member_refs(members, (count - 1) as nat);
        let tail = ref_list(members[count - 1]);
        lemma_member_refs(members, (count - 1) as nat, name);
        lemma_ref_list(members[count - 1], name);
        lemma_contains_concat(head, tail, name);
        if exists|i: int| 0 <= i < count && mentions(#[trigger] members[i], name) {
            let i = choose|i: int| 0 <= i < count && mentions(#[trigger] members[i], name);
            if i < count - 1 {
                assert(mentions(members[i], name));
            }
        }
    }
}

/// The names listed for the first `count` entries are those that the schema
/// of one of these entries refers to.
pub proof fn lemma_entry_refs(
    entries: Seq<(Seq<char>, SchemaView)>,
    count: nat,
    name: Seq<char>,
)
    requires
        count <= entries.len(),
    ensures
        entry_refs(entries, count).contains(name) <==> exists|i: int|
            0 <= i < count && mentions((#[trigger] entries[i]).1, name),
    decreases entries, count,
{
    if count > 0 {
        let head = entry_refs(entries, (count - 1) as nat);
        let tail = ref_list(entries[count - 1].1);
        lemma_entry_refs(entries, (count - 1) as nat, name);
        lemma_ref_list(entries[count - 1].1, name);
        lemma_contains_concat(head, tail, name);
        if exists|i: int| 0 <= i < count && mentions((#[trigger] entries[i]).1, name) {
            let i = choose|i: int| 0 <= i < count && mentions((#[trigger] entries[i]).1, name);
            if i < count - 1 {
                assert(mentions(entries[i].1, name));
            }
        }
    }
}

/// A concatenation holds what either part holds.
pub proof fn lemma_contains_concat(a: Seq<Seq<char>>, b: Seq<Seq<char>>, name: Seq<char>)
    ensures
        (a + b).contains(name) <==> a.contains(name) || b.contains(name),
{
    if a.contains(name) {
        let i = choose|i: int| 0 <= i < a.len() && a[i] == name;
        assert((a + b)[i] == name);
    }
    if b.contains(name) {
        let i = choose|i: int| 0 <= i < b.len() && b[i] == name;
        assert((a + b)[a.len() + i] == name);
    }
    if (a + b).contains(name) {
        let i = choose|i: int| 0 <= i < (a + b).len() && (a + b)[i] == name;
        if i < a.len() {
            assert(a[i] == name);
        } else {
            assert(b[i - a.len()] == name);
        }
    }
}

/// The reference list of a schema holds exactly the names that it refers to.
pub proof fn lemma_ref_list(schema: SchemaView, name: Seq<char>)
    ensures
        ref_list(schema).contains(name) <==> mentions(schema, name),
    decreases schema, 0nat,
{
    match schema {
        SchemaView::Reference(target) => {
            assert(seq![target][0] == target);
        },
        SchemaView::Object { properties, additional_properties } => {
            lemma_entry_refs(properties, properties.len(), name);
            let head = entry_refs(properties, properties.len());
            match additional_properties {
                Some(inner) => {
                    lemma_ref_list(*inner, name);
                    lemma_contains_concat(head, ref_list(*inner), name);
                },
                None => {
                    assert(head + Seq::<Seq<char>>::empty() =~= head);
                },
            }
        },
        SchemaView::Array(_) => {},
        SchemaView::OneOf(members) => {
            lemma_member_refs(members, members.len(), name);
        },
        SchemaView::AnyOf(members) => {
            lemma_member_refs(members, members.len(), name);
        },
        SchemaView::AllOf(members) => {
            lemma_member_refs(members, members.len(), name);
        },
        SchemaView::Primitive => {},
    }
}

/// The ordered references of a schema are the names that it refers to, each
/// listed once.
pub proof fn lemma_ref_order(schema: SchemaView)
    ensures
        ref_order(schema).no_duplicates(),
        forall|name: Seq<char>| ref_order(schema).contains(name) <==> mentions(schema, name),
{
    lemma_add_all(Seq::empty(), ref_list(schema));
    assert forall|name: Seq<char>| ref_order(schema).contains(name) <==> mentions(
        schema,
        name,
    ) by {
        lemma_ref_list(schema, name);
    }
}

/// A reference that stands only among the items of an array is not a
/// reference of the array.
pub proof fn lemma_array_items_are_skipped(items: SchemaView, name: Seq<char>)
    ensures
        !mentions(SchemaView::Array(Box::new(items)), name),
        ref_order(SchemaView::Array(Box::new(items))) == Seq::<Seq<char>>::empty(),
{
}

/// Where the named schemas of a document are found: a reference to the
/// schema `Pet` is written `#/components/schemas/Pet`.
pub open spec fn schema_location_prefix() -> Seq<char> {
    "#/components/schemas/"@
}

/// `str::strip_prefix` of std, with a string as the pattern: where `text`
/// starts with `prefix` it returns the rest of `text`, and `None` where it
/// does not.
#[verifier::external_body]
fn strip_prefix<'a>(text: &'a str, prefix: &str) -> (rest: Option<&'a str>)
    ensures
        match rest {
            Some(tail) => text@ == prefix@ + tail@,
            None => !prefix@.is_prefix_of(text@),
        },
{
    text.strip_prefix(prefix)
}

/// The name of the schema that a reference location points to, where it
/// points to a named schema of the document at all.
pub fn schema_name(location: &str) -> (name: Option<String>)
    ensures
        match name {
            Some(name) => location@ == schema_location_prefix() + name@,
            None => !schema_location_prefix().is_prefix_of(location@),
        },
{
    match strip_prefix(location, "#/components/schemas/") {
        Some(tail) => Some(String::from_str(tail)),
        None => None,
    }
}

/// The reference location of the schema named `name`.
pub fn schema_location(name: &str) -> (location: String)
    ensures
        location@ == schema_location_prefix() + name@,
{
    let mut location = String::from_str("#/components/schemas/");
    location.append(name);
    location
}

/// A location names the schema that it was made for, and no other.
pub proof fn lemma_location_names_one_schema(name: Seq<char>, other: Seq<char>)
    ensures
        schema_location_prefix().is_prefix_of(schema_location_prefix() + name),
        schema_location_prefix() + name == schema_location_prefix() + other ==> name == other,
{
    let prefix = schema_location_prefix();
    assert((prefix + name).subrange(0, prefix.len() as int) =~= prefix);
    if prefix + name == prefix + other {
        assert(name =~= (prefix + name).subrange(
            prefix.len() as int,
            (prefix + name).len() as int,
        ));
        assert(other =~= (prefix + other).subrange(
            prefix.len() as int,
            (prefix + other).len() as int,
        ));
    }
}

/// Adds `name` to `found` unless it is there already.
pub fn note_name(found: &mut Vec<String>, name: &String)
    ensures
        names(final(found)@) == add_one(names(old(found)@), name@),
{
    let mut i: usize = 0;
    while i < found.len()
        invariant
            i <= found.len(),
            forall|k: int| 0 <= k < i ==> (#[trigger] names(found@)[k]) != name@,
        decreases found.len() - i,
    {
        if found[i] == *name {
            assert(names(found@)[i as int] == name@);
            return ;
        }
        i += 1;
    }
    found.push(name.clone());
    assert(names(found@) =~= names(old(found)@).push(name@));
}

/// Adds the references of each member to `found`, first member first.
pub fn collect_member_refs(members: &Vec<Schema>, found: &mut Vec<String>)
    ensures
        names(final(found)@) == add_all(
            names(old(found)@),
            member_refs(members_view(*members), members.len() as nat),
        ),
    decreases *members, 1nat,
{
    let mut i: usize = 0;
    while i < members.len()
        invariant
            i <= members.len(),
            names(found@) == add_all(
                names(old(found)@),
                member_refs(members_view(*members), i as nat),
            ),
        decreases members.len() - i,
    {
        proof {
            lemma_add_all_concat(
                names(old(found)@),
                member_refs(members_view(*members), i as nat),
                ref_list(members[i as int]@),
            );
        }
        collect_refs(&members[i], found);
        i += 1;
    }
}

/// Adds the references of the schema of each entry to `found`, first entry
/// first.
pub fn collect_entry_refs(entries: &Vec<(String, Schema)>, found: &mut Vec<String>)
    ensures
        names(final(found)@) == add_all(
            names(old(found)@),
            entry_refs(entries_view(*entries), entries.len() as nat),
        ),
    decreases *entries, 1nat,
{
    let mut i: usize = 0;
    while i < entries.len()
        invariant
            i <= entries.len(),
            names(found@) == add_all(
                names(old(found)@),
                entry_refs(entries_view(*entries), i as nat),
            ),
        decreases entries.len() - i,
    {
        proof {
            lemma_add_all_concat(
                names(old(found)@),
                entry_refs(entries_view(*entries), i as nat),
                ref_list(entries[i as int].1@),
            );
        }
        collect_refs(&entries[i].1, found);
        i += 1;
    }
}

/// Adds the references of `schema` to `found`, in reading order.
pub fn collect_refs(schema: &Schema, found: &mut Vec<String>)
    ensures
        names(final(found)@) == add_all(names(old(found)@), ref_list(schema@)),
    decreases *schema, 0nat,
{
    match schema {
        Schema::Reference(target) => {
            assert(add_all(names(old(found)@), seq![target@]) == add_one(
                names(old(found)@),
                target@,
            )) by {
                assert(seq![target@].drop_last() =~= Seq::<Seq<char>>::empty());
                assert(add_all(names(old(found)@), Seq::empty()) == names(old(found)@));
            }
            note_name(found, target);
        },
        Schema::Object { properties, additional_properties } => {
            collect_entry_refs(properties, found);
            match additional_properties {
                Some(inner) => {
                    proof {
                        lemma_add_all_concat(
                            names(old(found)@),
                            entry_refs(entries_view(*properties), properties.len() as nat),
                            ref_list(inner@),
                        );
                    }
                    collect_refs(inner, found);
                },
                None => {
                    assert(entry_refs(entries_view(*properties), properties.len() as nat)
                        + Seq::<Seq<char>>::empty() =~= entry_refs(
                        entries_view(*properties),
                        properties.len() as nat,
                    ));
                },
            }
        },
        Schema::Array(_) => {},
        Schema::OneOf(members) => collect_member_refs(members, found),
        Schema::AnyOf(members) => collect_member_refs(members, found),
        Schema::AllOf(members) => collect_member_refs(members, found),
        Schema::Primitive => {},
    }
}

/// The names of the schemas that `schema` refers to outside array items:
/// each once, in the order in which they are first met.
pub fn extract_schema_refs(schema: &Schema) -> (refs: Vec<String>)
    ensures
        names(refs@) == ref_order(schema@),
        names(refs@).no_duplicates(),
        forall|name: Seq<char>| names(refs@).contains(name) <==> mentions(schema@, name),
{
    let mut refs: Vec<String> = Vec::new();
    assert(names(refs@) =~= Seq::<Seq<char>>::empty());
    collect_refs(schema, &mut refs);
    proof {
        lemma_ref_order(schema@);
    }
    refs
}

} // verus!
