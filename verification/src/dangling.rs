//! Finding the references of a document that point at no schema.
//!
//! A reference is dangling where it names a schema that the schema table of
//! the document has no entry for. Building a document leaves such references
//! in place; this pass lists them. It goes through every schema of the
//! document: those of the schema table, those of the operations of each path,
//! and those of the responses of the document.

use crate::closure::{close, is_closed, lemma_close_is_complete};
use crate::document::{
    parameters_view, responses_view, slot_view, Document, DocumentView, Operation, OperationView,
    Parameter, ParameterView, PathItem, PathItemView, RequestBodyView, ResponseOrRef,
    ResponseOrRefView, ResponseView,
};
use crate::ordered::has_key;
use crate::references::{
    add_all, collect_entry_refs, collect_refs, entry_refs, lemma_add_all, lemma_add_all_concat,
    lemma_contains_concat, lemma_entry_refs, mentions, names, ref_list,
};
use crate::schema::SchemaView;
use vstd::prelude::*;

verus! {

/// The references of the schemas of the first `count` parameters, in reading
/// order.
pub open spec fn parameter_refs(parameters: Seq<ParameterView>, count: nat) -> Seq<Seq<char>>
    decreases count,
{
    if count == 0 || count > parameters.len() {
        Seq::empty()
    } else {
        parameter_refs(parameters, (count - 1) as nat) + match parameters[count - 1].schema {
            Some(schema) => ref_list(schema),
            None => Seq::empty(),
        }
    }
}

/// The references of the schemas of the first `count` responses of an
/// operation, in reading order. A response that is given by name holds no
/// schema.
pub open spec fn response_refs(responses: Seq<(Seq<char>, ResponseOrRefView)>, count: nat) -> Seq<
    Seq<char>,
>
    decreases count,
{
    if count == 0 || count > responses.len() {
        Seq::empty()
    } else {
        response_refs(responses, (count - 1) as nat) + match responses[count - 1].1 {
            ResponseOrRefView::Response(response) => entry_refs(
                response.content,
                response.content.len(),
            ),
            ResponseOrRefView::Reference(_) => Seq::empty(),
        }
    }
}

/// The references of the schemas of a request body that may be missing.
pub open spec fn body_refs(body: Option<RequestBodyView>) -> Seq<Seq<char>> {
    match body {
        Some(body) => entry_refs(body.content, body.content.len()),
        None => Seq::empty(),
    }
}

/// The references of the schemas of an operation: those of its parameters,
/// of its request body and of its responses, in this order.
pub open spec fn operation_refs(operation: OperationView) -> Seq<Seq<char>> {
    parameter_refs(operation.parameters, operation.parameters.len()) + body_refs(
        operation.request_body,
    ) + response_refs(operation.responses, operation.responses.len())
}

/// The references of the schemas of an operation that may be missing.
pub open spec fn slot_refs(slot: Option<OperationView>) -> Seq<Seq<char>> {
    match slot {
        Some(operation) => operation_refs(operation),
        None => Seq::empty(),
    }
}

/// The references of the schemas of the operations of a path, the operations
/// taken in the order get, put, post, delete, options, head, patch, trace.
pub open spec fn item_refs(item: PathItemView) -> Seq<Seq<char>> {
    slot_refs(item.get) + slot_refs(item.put) + slot_refs(item.post) + slot_refs(item.delete)
        + slot_refs(item.options) + slot_refs(item.head) + slot_refs(item.patch) + slot_refs(
        item.trace,
    )
}

/// The references of the schemas of the operations of the first `count`
/// paths.
pub open spec fn path_refs(paths: Seq<(Seq<char>, PathItemView)>, count: nat) -> Seq<Seq<char>>
    decreases count,
{
    if count == 0 || count > paths.len() {
        Seq::empty()
    } else {
        path_refs(paths, (count - 1) as nat) + item_refs(paths[count - 1].1)
    }
}

/// The references of the schemas of the first `count` named responses.
pub open spec fn named_response_refs(responses: Seq<(Seq<char>, ResponseView)>, count: nat) -> Seq<
    Seq<char>,
>
    decreases count,
{
    if count == 0 || count > responses.len() {
        Seq::empty()
    } else {
        named_response_refs(responses, (count - 1) as nat) + entry_refs(
            responses[count - 1].1.content,
            responses[count - 1].1.content.len(),
        )
    }
}

/// Every reference of a schema of the document outside array items, in
/// reading order: the schema table first, then the paths, then the
/// responses. A name referred to twice is listed twice.
pub open spec fn document_refs(document: DocumentView) -> Seq<Seq<char>> {
    entry_refs(document.components.schemas, document.components.schemas.len()) + path_refs(
        document.paths,
        document.paths.len(),
    ) + named_response_refs(document.components.responses, document.components.responses.len())
}

/// The names of `wanted` that have no entry in `table`, in their order.
pub open spec fn missing_of(wanted: Seq<Seq<char>>, table: Seq<(Seq<char>, SchemaView)>) -> Seq<
    Seq<char>,
>
    decreases wanted.len(),
{
    if wanted.len() == 0 {
        wanted
    } else if has_key(table, wanted.last()) {
        missing_of(wanted.drop_last(), table)
    } else {
        missing_of(wanted.drop_last(), table).push(wanted.last())
    }
}

/// The dangling references of a document: the names that a schema of the
/// document refers to and that its schema table has no entry for, each once,
/// in the order in which they are met.
pub open spec fn dangling(document: DocumentView) -> Seq<Seq<char>> {
    missing_of(add_all(Seq::empty(), document_refs(document)), document.components.schemas)
}

/// The missing names are the wanted names without an entry, and none is
/// listed twice where none is wanted twice.
pub proof fn lemma_missing_of(wanted: Seq<Seq<char>>, table: Seq<(Seq<char>, SchemaView)>)
    ensures
        wanted.no_duplicates() ==> missing_of(wanted, table).no_duplicates(),
        forall|name: Seq<char>|
            missing_of(wanted, table).contains(name) <==> wanted.contains(name) && !has_key(
                table,
                name,
            ),
    decreases wanted.len(),
{
    if wanted.len() > 0 {
        let front = wanted.drop_last();
        let last = wanted.last();
        let before = missing_of(front, table);
        let after = missing_of(wanted, table);
        lemma_missing_of(front, table);
        assert(wanted[wanted.len() - 1] == last);
        assert forall|name: Seq<char>| after.contains(name) <==> wanted.contains(name) && !has_key(
            table,
            name,
        ) by {
            if wanted.contains(name) {
                let i = choose|i: int| 0 <= i < wanted.len() && wanted[i] == name;
                if i < wanted.len() - 1 {
                    assert(front[i] == name);
                }
            }
            if front.contains(name) {
                let i = choose|i: int| 0 <= i < front.len() && front[i] == name;
                assert(wanted[i] == name);
            }
            if before.contains(name) {
                let i = choose|i: int| 0 <= i < before.len() && before[i] == name;
                assert(after[i] == name);
            }
            if after != before {
                assert(after[before.len() as int] == last);
                if after.contains(name) {
                    let i = choose|i: int| 0 <= i < after.len() && after[i] == name;
                    if i < before.len() {
                        assert(before[i] == name);
                    }
                }
            }
        }
        if wanted.no_duplicates() && after != before {
            assert(front.no_duplicates());
            assert(!front.contains(last)) by {
                if front.contains(last) {
                    let i = choose|i: int| 0 <= i < front.len() && front[i] == last;
                    assert(wanted[i] == wanted[wanted.len() - 1]);
                }
            }
        }
    }
}

/// The dangling references of a document are the names that one of its
/// schemas refers to and that its schema table has no entry for, each listed
/// once.
pub proof fn lemma_dangling(document: DocumentView)
    ensures
        dangling(document).no_duplicates(),
        forall|name: Seq<char>|
            dangling(document).contains(name) <==> document_refs(document).contains(name)
                && !has_key(document.components.schemas, name),
{
    let all = add_all(Seq::empty(), document_refs(document));
    lemma_add_all(Seq::empty(), document_refs(document));
    lemma_missing_of(all, document.components.schemas);
}

/// No dangling reference of the schema table goes unlisted: a name that the
/// schema of an entry refers to, and that has no entry, is a dangling
/// reference of the document.
pub proof fn lemma_dangling_holds_table_references(
    document: DocumentView,
    entry: int,
    name: Seq<char>,
)
    requires
        0 <= entry < document.components.schemas.len(),
        mentions(document.components.schemas[entry].1, name),
        !has_key(document.components.schemas, name),
    ensures
        dangling(document).contains(name),
{
    let table = document.components.schemas;
    let paths = path_refs(document.paths, document.paths.len());
    let responses = named_response_refs(
        document.components.responses,
        document.components.responses.len(),
    );
    lemma_dangling(document);
    lemma_entry_refs(table, table.len(), name);
    lemma_contains_concat(entry_refs(table, table.len()), paths, name);
    lemma_contains_concat(entry_refs(table, table.len()) + paths, responses, name);
}

/// After closure, a reference of the schema table dangles only for want of a
/// provider: a name that a schema of a closed table refers to, and that has
/// no entry, has no provider.
pub proof fn lemma_closed_table_dangles_without_provider(
    table: Seq<(Seq<char>, SchemaView)>,
    providers: Seq<(Seq<char>, SchemaView)>,
    entry: int,
    name: Seq<char>,
)
    requires
        0 <= entry < close(table, providers).len(),
        mentions(close(table, providers)[entry].1, name),
        !has_key(close(table, providers), name),
    ensures
        !has_key(providers, name),
{
    lemma_close_is_complete(table, providers);
    assert(is_closed(close(table, providers), providers));
}

/// Adds the references of the schemas of the parameters to `found`.
fn collect_parameter_refs(parameters: &Vec<Parameter>, found: &mut Vec<String>)
    ensures
        names(final(found)@) == add_all(
            names(old(found)@),
            parameter_refs(parameters_view(*parameters), parameters.len() as nat),
        ),
{
    let ghost start = names(found@);
    let ghost all = parameters_view(*parameters);
    let mut i: usize = 0;
    while i < parameters.len()
        invariant
            i <= parameters.len(),
            all == parameters_view(*parameters),
            names(found@) == add_all(start, parameter_refs(all, i as nat)),
        decreases parameters.len() - i,
    {
        let ghost before = parameter_refs(all, i as nat);
        match &parameters[i].schema {
            Some(schema) => {
                proof {
                    lemma_add_all_concat(start, before, ref_list(schema@));
                }
                collect_refs(schema, found);
            },
            None => {
                assert(before + Seq::<Seq<char>>::empty() =~= before);
            },
        }
        i += 1;
    }
}

/// Adds the references of the schemas of the responses of an operation to
/// `found`.
fn collect_response_refs(responses: &Vec<(String, ResponseOrRef)>, found: &mut Vec<String>)
    ensures
        names(final(found)@) == add_all(
            names(old(found)@),
            response_refs(responses_view(*responses), responses.len() as nat),
        ),
{
    let ghost start = names(found@);
    let ghost all = responses_view(*responses);
    let mut i: usize = 0;
    while i < responses.len()
        invariant
            i <= responses.len(),
            all == responses_view(*responses),
            names(found@) == add_all(start, response_refs(all, i as nat)),
        decreases responses.len() - i,
    {
        let ghost before = response_refs(all, i as nat);
        match &responses[i].1 {
            ResponseOrRef::Response(response) => {
                proof {
                    lemma_add_all_concat(
                        start,
                        before,
                        entry_refs(response@.content, response@.content.len()),
                    );
                }
                collect_entry_refs(&response.content, found);
            },
            ResponseOrRef::Reference(_) => {
                assert(before + Seq::<Seq<char>>::empty() =~= before);
            },
        }
        i += 1;
    }
}

/// Adds the references of the schemas of an operation to `found`.
fn collect_operation_refs(operation: &Operation, found: &mut Vec<String>)
    ensures
        names(final(found)@) == add_all(names(old(found)@), operation_refs(operation@)),
{
    let ghost start = names(found@);
    let ghost parameters = parameter_refs(
        operation@.parameters,
        operation@.parameters.len(),
    );
    let ghost responses = response_refs(operation@.responses, operation@.responses.len());
    collect_parameter_refs(&operation.parameters, found);
    let ghost body = body_refs(operation@.request_body);
    match &operation.request_body {
        Some(body) => {
            collect_entry_refs(&body.content, found);
        },
        None => {
            assert(add_all(names(found@), body) == names(found@));
        },
    }
    proof {
        lemma_add_all_concat(start, parameters, body);
        lemma_add_all_concat(start, parameters + body, responses);
    }
    collect_response_refs(&operation.responses, found);
}

/// Adds the references of the schemas of an operation that may be missing
/// to `found`.
fn collect_slot_refs(slot: &Option<Operation>, found: &mut Vec<String>)
    ensures
        names(final(found)@) == add_all(names(old(found)@), slot_refs(slot_view(*slot))),
{
    match slot {
        Some(operation) => collect_operation_refs(operation, found),
        None => {
            assert(add_all(names(found@), Seq::empty()) == names(found@));
        },
    }
}

/// Adds the references of the schemas of the operations of a path to `found`.
fn collect_item_refs(item: &PathItem, found: &mut Vec<String>)
    ensures
        names(final(found)@) == add_all(names(old(found)@), item_refs(item@)),
{
    let ghost start = names(found@);
    let ghost view = item@;
    collect_slot_refs(&item.get, found);
    let ghost done = slot_refs(view.get);
    proof {
        lemma_add_all_concat(start, done, slot_refs(view.put));
    }
    collect_slot_refs(&item.put, found);
    let ghost done = done + slot_refs(view.put);
    proof {
        lemma_add_all_concat(start, done, slot_refs(view.post));
    }
    collect_slot_refs(&item.post, found);
    let ghost done = done + slot_refs(view.post);
    proof {
        lemma_add_all_concat(start, done, slot_refs(view.delete));
    }
    collect_slot_refs(&item.delete, found);
    let ghost done = done + slot_refs(view.delete);
    proof {
        lemma_add_all_concat(start, done, slot_refs(view.options));
    }
    collect_slot_refs(&item.options, found);
    let ghost done = done + slot_refs(view.options);
    proof {
        lemma_add_all_concat(start, done, slot_refs(view.head));
    }
    collect_slot_refs(&item.head, found);
    let ghost done = done + slot_refs(view.head);
    proof {
        lemma_add_all_concat(start, done, slot_refs(view.patch));
    }
    collect_slot_refs(&item.patch, found);
    let ghost done = done + slot_refs(view.patch);
    proof {
        lemma_add_all_concat(start, done, slot_refs(view.trace));
    }
    collect_slot_refs(&item.trace, found);
}

/// Lists every name that a schema of `document` refers to outside array
/// items, each once, in the order in which it is met.
pub fn document_references(document: &Document) -> (found: Vec<String>)
    ensures
        names(found@) == add_all(Seq::empty(), document_refs(document@)),
        names(found@).no_duplicates(),
        forall|name: Seq<char>|
            names(found@).contains(name) <==> document_refs(document@).contains(name),
{
    let schemas = &document.components.schemas;
    let paths = &document.paths;
    let responses = &document.components.responses;
    let ghost none = Seq::<Seq<char>>::empty();
    let mut found: Vec<String> = Vec::new();
    assert(names(found@) =~= none);
    let mut i: usize = 0;
    while i < schemas.len()
        invariant
            i <= schemas@.len(),
            names(found@) == add_all(none, entry_refs(schemas@, i as nat)),
        decreases schemas@.len() - i,
    {
        proof {
            lemma_add_all_concat(
                none,
                entry_refs(schemas@, i as nat),
                ref_list(schemas@[i as int].1),
            );
        }
        collect_refs(schemas.value_at(i), &mut found);
        i += 1;
    }
    let ghost table_refs = entry_refs(schemas@, schemas@.len());
    assert(table_refs + none =~= table_refs);
    let mut j: usize = 0;
    while j < paths.len()
        invariant
            j <= paths@.len(),
            table_refs == entry_refs(schemas@, schemas@.len()),
            names(found@) == add_all(none, table_refs + path_refs(paths@, j as nat)),
        decreases paths@.len() - j,
    {
        proof {
            let done = path_refs(paths@, j as nat);
            let next = item_refs(paths@[j as int].1);
            lemma_add_all_concat(none, table_refs + done, next);
            assert(table_refs + (done + next) =~= (table_refs + done) + next);
        }
        collect_item_refs(paths.value_at(j), &mut found);
        j += 1;
    }
    let ghost path_part = table_refs + path_refs(paths@, paths@.len());
    assert(path_part + none =~= path_part);
    let mut k: usize = 0;
    while k < responses.len()
        invariant
            k <= responses@.len(),
            path_part == entry_refs(schemas@, schemas@.len()) + path_refs(paths@, paths@.len()),
            names(found@) == add_all(none, path_part + named_response_refs(responses@, k as nat)),
        decreases responses@.len() - k,
    {
        let response = responses.value_at(k);
        proof {
            let done = named_response_refs(responses@, k as nat);
            let next = entry_refs(response@.content, response@.content.len());
            lemma_add_all_concat(none, path_part + done, next);
            assert(path_part + (done + next) =~= (path_part + done) + next);
        }
        collect_entry_refs(&response.content, &mut found);
        k += 1;
    }
    proof {
        lemma_add_all(none, document_refs(document@));
    }
    found
}

/// Lists the dangling references of `document`: the names that one of its
/// schemas refers to, outside array items, and that its schema table has no
/// entry for. Each name is listed once, in the order in which it is met going
/// through the schema table, the paths and the responses.
pub fn dangling_references(document: &Document) -> (found: Vec<String>)
    ensures
        names(found@) == dangling(document@),
        names(found@).no_duplicates(),
        forall|name: Seq<char>|
            names(found@).contains(name) <==> document_refs(document@).contains(name) && !has_key(
                document@.components.schemas,
                name,
            ),
{
    let schemas = &document.components.schemas;
    let wanted = document_references(document);
    let mut found: Vec<String> = Vec::new();
    assert(names(wanted@).take(0) =~= Seq::<Seq<char>>::empty());
    assert(names(found@) =~= Seq::<Seq<char>>::empty());
    let mut i: usize = 0;
    while i < wanted.len()
        invariant
            i <= wanted.len(),
            names(found@) == missing_of(names(wanted@).take(i as int), schemas@),
        decreases wanted.len() - i,
    {
        proof {
            assert(names(wanted@).take(i + 1).drop_last() =~= names(wanted@).take(i as int));
            assert(names(wanted@).take(i + 1).last() == wanted[i as int]@);
        }
        if !schemas.contains_key(&wanted[i]) {
            let ghost before = names(found@);
            found.push(wanted[i].clone());
            assert(names(found@) =~= before.push(wanted[i as int]@));
        }
        i += 1;
    }
    assert(names(wanted@).take(i as int) =~= names(wanted@));
    proof {
        lemma_dangling(document@);
    }
    found
}

} // verus!
