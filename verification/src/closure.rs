//! Closing a schema table under references.
//!
//! The table is gone through from its first entry to its last. Each name that
//! the schema of an entry refers to, that has no entry yet and that a provider
//! is registered for, gets an entry at the end of the table, which is gone
//! through in its turn. The entries that have not been gone through are the
//! work that is left, and the names of the table are the names that are
//! resolved.

use crate::ordered::{distinct_keys, has_key, lookup, position, put_all, OrderedMap};
use crate::references::{extract_schema_refs, mentions, names, ref_order};
use crate::registry::{providers_view, SchemaProvider};
use crate::schema::{Schema, SchemaView};
use vstd::prelude::*;

verus! {

/// The schema of the provider registered under `name`: that of the last one,
/// where several share the name.
pub open spec fn provided(providers: Seq<(Seq<char>, SchemaView)>, name: Seq<char>) -> Option<
    SchemaView,
>
    decreases providers.len(),
{
    if providers.len() == 0 {
        None
    } else if providers.last().0 == name {
        Some(providers.last().1)
    } else {
        provided(providers.drop_last(), name)
    }
}

/// `table` after resolving `name`: a name without an entry gets one, with the
/// schema provided for it, at the end of the table. A name that has an entry,
/// or no provider, leaves the table as it is.
pub open spec fn resolve_one(
    table: Seq<(Seq<char>, SchemaView)>,
    name: Seq<char>,
    providers: Seq<(Seq<char>, SchemaView)>,
) -> Seq<(Seq<char>, SchemaView)> {
    if has_key(table, name) {
        table
    } else {
        match provided(providers, name) {
            Some(schema) => table.push((name, schema)),
            None => table,
        }
    }
}

/// `table` after resolving each of `wanted`, first to last.
pub open spec fn resolve_all(
    table: Seq<(Seq<char>, SchemaView)>,
    wanted: Seq<Seq<char>>,
    providers: Seq<(Seq<char>, SchemaView)>,
) -> Seq<(Seq<char>, SchemaView)>
    decreases wanted.len(),
{
    if wanted.len() == 0 {
        table
    } else {
        resolve_one(resolve_all(table, wanted.drop_last(), providers), wanted.last(), providers)
    }
}

/// The number of provider entries whose name has no entry in `table`.
pub open spec fn unresolved(
    providers: Seq<(Seq<char>, SchemaView)>,
    table: Seq<(Seq<char>, SchemaView)>,
) -> nat
    decreases providers.len(),
{
    if providers.len() == 0 {
        0
    } else {
        unresolved(providers.drop_last(), table) + if has_key(table, providers.last().0) {
            0nat
        } else {
            1nat
        }
    }
}

/// `table` after going through its entries from index `next` on, those that
/// are added on the way included.
pub open spec fn close_from(
    table: Seq<(Seq<char>, SchemaView)>,
    next: nat,
    providers: Seq<(Seq<char>, SchemaView)>,
) -> Seq<(Seq<char>, SchemaView)>
    decreases unresolved(providers, table) + table.len() - next,
    via close_from_terminates
{
    if next >= table.len() {
        table
    } else {
        close_from(
            resolve_all(table, ref_order(table[next as int].1), providers),
            next + 1,
            providers,
        )
    }
}

/// `table` closed under references: each name that the schema of an entry
/// refers to has an entry, as far as a provider is registered for it.
pub open spec fn close(
    table: Seq<(Seq<char>, SchemaView)>,
    providers: Seq<(Seq<char>, SchemaView)>,
) -> Seq<(Seq<char>, SchemaView)> {
    close_from(table, 0, providers)
}

#[via_fn]
proof fn close_from_terminates(
    table: Seq<(Seq<char>, SchemaView)>,
    next: nat,
    providers: Seq<(Seq<char>, SchemaView)>,
) {
    if next < table.len() {
        lemma_resolve_all(table, ref_order(table[next as int].1), providers);
    }
}

/// A name has a provided schema exactly where a provider is registered for
/// it.
pub proof fn lemma_provided(providers: Seq<(Seq<char>, SchemaView)>, name: Seq<char>)
    ensures
        provided(providers, name) is Some <==> has_key(providers, name),
        provided(providers, name) matches Some(schema) ==> exists|i: int|
            0 <= i < providers.len() && #[trigger] providers[i] == (name, schema) && forall|j: int|
                i < j < providers.len() ==> (#[trigger] providers[j]).0 != name,
    decreases providers.len(),
{
    if providers.len() > 0 {
        let front = providers.drop_last();
        let last = providers.len() - 1;
        lemma_provided(front, name);
        if providers.last().0 == name {
            assert(providers[last].0 == name);
            assert(providers[last] == (name, providers.last().1));
        } else {
            if has_key(providers, name) {
                let i = position(providers, name);
                assert(front[i].0 == name);
            }
            if has_key(front, name) {
                let i = position(front, name);
                assert(providers[i].0 == name);
            }
            if provided(providers, name) is Some {
                let schema = provided(providers, name)->Some_0;
                let i = choose|i: int|
                    0 <= i < front.len() && #[trigger] front[i] == (name, schema) && forall|j: int|
                        i < j < front.len() ==> (#[trigger] front[j]).0 != name;
                assert(providers[i] == (name, schema));
                assert forall|j: int| i < j < providers.len() implies (#[trigger] providers[j]).0
                    != name by {
                    if j < last {
                        assert(front[j].0 != name);
                    }
                }
            }
        }
    }
}

/// A table that has grown leaves no more providers unresolved than before,
/// and fewer where one of the new names has a provider.
pub proof fn lemma_unresolved_shrinks(
    providers: Seq<(Seq<char>, SchemaView)>,
    table: Seq<(Seq<char>, SchemaView)>,
    grown: Seq<(Seq<char>, SchemaView)>,
)
    requires
        table.is_prefix_of(grown),
    ensures
        unresolved(providers, grown) <= unresolved(providers, table),
        forall|name: Seq<char>|
            has_key(providers, name) && has_key(grown, name) && !has_key(table, name)
                ==> unresolved(providers, grown) < unresolved(providers, table),
    decreases providers.len(),
{
    assert forall|name: Seq<char>| has_key(table, name) implies has_key(grown, name) by {
        let i = position(table, name);
        assert(grown[i] == table[i]);
    }
    if providers.len() > 0 {
        let front = providers.drop_last();
        lemma_unresolved_shrinks(front, table, grown);
        assert forall|name: Seq<char>|
            has_key(providers, name) && has_key(grown, name) && !has_key(
                table,
                name,
            ) implies unresolved(providers, grown) < unresolved(providers, table) by {
            if providers.last().0 != name {
                let i = position(providers, name);
                assert(front[i].0 == name);
            }
        }
    }
}

/// Resolving names only adds entries at the end, one for each provider that
/// it resolves at the least.
pub proof fn lemma_resolve_all(
    table: Seq<(Seq<char>, SchemaView)>,
    wanted: Seq<Seq<char>>,
    providers: Seq<(Seq<char>, SchemaView)>,
)
    ensures
        table.is_prefix_of(resolve_all(table, wanted, providers)),
        unresolved(providers, resolve_all(table, wanted, providers)) + resolve_all(
            table,
            wanted,
            providers,
        ).len() <= unresolved(providers, table) + table.len(),
    decreases wanted.len(),
{
    if wanted.len() > 0 {
        let before = resolve_all(table, wanted.drop_last(), providers);
        let after = resolve_all(table, wanted, providers);
        let name = wanted.last();
        lemma_resolve_all(table, wanted.drop_last(), providers);
        if after != before {
            assert(after == before.push((name, provided(providers, name)->Some_0)));
            assert(after[before.len() as int].0 == name);
            lemma_provided(providers, name);
            lemma_unresolved_shrinks(providers, before, after);
        }
    }
}

/// What resolving a list of names does to a table: the entries that were
/// there stay, each wanted name that has a provider has an entry afterwards,
/// and each entry that was added is a wanted name that had none, with the
/// schema provided for it.
pub proof fn lemma_resolve_all_entries(
    table: Seq<(Seq<char>, SchemaView)>,
    wanted: Seq<Seq<char>>,
    providers: Seq<(Seq<char>, SchemaView)>,
)
    ensures
        table.is_prefix_of(resolve_all(table, wanted, providers)),
        distinct_keys(table) ==> distinct_keys(resolve_all(table, wanted, providers)),
        forall|i: int|
            0 <= i < wanted.len() ==> has_key(
                resolve_all(table, wanted, providers),
                #[trigger] wanted[i],
            ) || provided(providers, wanted[i]) is None,
        forall|k: int|
            table.len() <= k < resolve_all(table, wanted, providers).len() ==> {
                let entry = #[trigger] resolve_all(table, wanted, providers)[k];
                &&& wanted.contains(entry.0)
                &&& provided(providers, entry.0) == Some(entry.1)
                &&& !has_key(table, entry.0)
            },
    decreases wanted.len(),
{
    if wanted.len() > 0 {
        let front = wanted.drop_last();
        let before = resolve_all(table, front, providers);
        let after = resolve_all(table, wanted, providers);
        let name = wanted.last();
        lemma_resolve_all_entries(table, front, providers);
        assert(before.is_prefix_of(after));
        lemma_grown_keys(before, after);
        lemma_grown_keys(table, before);
        assert forall|i: int| 0 <= i < wanted.len() implies has_key(after, #[trigger] wanted[i])
            || provided(providers, wanted[i]) is None by {
            if i < wanted.len() - 1 {
                assert(front[i] == wanted[i]);
            } else if after != before {
                assert(after[before.len() as int].0 == name);
            }
        }
        assert forall|k: int| table.len() <= k < after.len() implies {
            let entry = #[trigger] after[k];
            &&& wanted.contains(entry.0)
            &&& provided(providers, entry.0) == Some(entry.1)
            &&& !has_key(table, entry.0)
        } by {
            if k < before.len() {
                assert(after[k] == before[k]);
                let i = choose|i: int| 0 <= i < front.len() && front[i] == before[k].0;
                assert(wanted[i] == before[k].0);
            } else {
                assert(wanted[wanted.len() - 1] == name);
            }
        }
        if distinct_keys(table) && after != before {
            assert forall|i: int, j: int| 0 <= i < j < after.len() implies (#[trigger] after[i]).0
                != (#[trigger] after[j]).0 by {
                assert(after[i] == before[i]);
                if j < before.len() {
                    assert(after[j] == before[j]);
                }
            }
        }
    }
}

/// A table that has grown holds every name that it held before.
pub proof fn lemma_grown_keys(
    table: Seq<(Seq<char>, SchemaView)>,
    grown: Seq<(Seq<char>, SchemaView)>,
)
    requires
        table.is_prefix_of(grown),
    ensures
        forall|name: Seq<char>| has_key(table, name) ==> has_key(grown, name),
{
    assert forall|name: Seq<char>| has_key(table, name) implies has_key(grown, name) by {
        let i = position(table, name);
        assert(grown[i] == table[i]);
    }
}

/// What going through a table from `next` on does to it: the entries that were
/// there stay; each name that an entry from `next` on refers to, and that has
/// a provider, has an entry afterwards; and each entry that was added holds the
/// schema provided for its name, which an earlier entry refers to.
pub proof fn lemma_close_from_entries(
    table: Seq<(Seq<char>, SchemaView)>,
    next: nat,
    providers: Seq<(Seq<char>, SchemaView)>,
)
    requires
        next <= table.len(),
    ensures
        table.is_prefix_of(close_from(table, next, providers)),
        distinct_keys(table) ==> distinct_keys(close_from(table, next, providers)),
        forall|j: int, name: Seq<char>|
            next <= j < close_from(table, next, providers).len() && mentions(
                (#[trigger] close_from(table, next, providers)[j]).1,
                name,
            ) && provided(providers, name) is Some ==> #[trigger] has_key(
                close_from(table, next, providers),
                name,
            ),
        forall|k: int|
            table.len() <= k < close_from(table, next, providers).len() ==> {
                let entry = #[trigger] close_from(table, next, providers)[k];
                &&& provided(providers, entry.0) == Some(entry.1)
                &&& !has_key(table, entry.0)
                &&& exists|j: int|
                    next <= j < k && mentions(
                        (#[trigger] close_from(table, next, providers)[j]).1,
                        entry.0,
                    )
            },
    decreases unresolved(providers, table) + table.len() - next,
{
    if next < table.len() {
        let wanted = ref_order(table[next as int].1);
        let step = resolve_all(table, wanted, providers);
        let closed = close_from(table, next, providers);
        lemma_resolve_all(table, wanted, providers);
        lemma_resolve_all_entries(table, wanted, providers);
        crate::references::lemma_ref_order(table[next as int].1);
        lemma_close_from_entries(step, next + 1, providers);
        assert(closed == close_from(step, next + 1, providers));
        lemma_grown_keys(step, closed);
        lemma_grown_keys(table, step);
        assert forall|j: int, name: Seq<char>|
            next <= j < closed.len() && mentions((#[trigger] closed[j]).1, name) && provided(
                providers,
                name,
            ) is Some implies #[trigger] has_key(closed, name) by {
            if j == next {
                assert(closed[j] == step[j]);
                assert(step[j] == table[j]);
                assert(wanted.contains(name));
                let i = choose|i: int| 0 <= i < wanted.len() && wanted[i] == name;
                assert(has_key(step, wanted[i]));
            }
        }
        assert forall|k: int| table.len() <= k < closed.len() implies {
            let entry = #[trigger] closed[k];
            &&& provided(providers, entry.0) == Some(entry.1)
            &&& !has_key(table, entry.0)
            &&& exists|j: int| next <= j < k && mentions((#[trigger] closed[j]).1, entry.0)
        } by {
            if k < step.len() {
                assert(closed[k] == step[k]);
                assert(closed[next as int] == step[next as int]);
                assert(step[next as int] == table[next as int]);
                assert(mentions(closed[next as int].1, closed[k].0));
            } else {
                let j = choose|j: int|
                    next + 1 <= j < k && mentions((#[trigger] closed[j]).1, closed[k].0);
                assert(next <= j < k && mentions(closed[j].1, closed[k].0));
            }
        }
    }
}

/// Closing a table keeps its entries in place and its names distinct.
pub proof fn lemma_close_keeps_entries(
    table: Seq<(Seq<char>, SchemaView)>,
    providers: Seq<(Seq<char>, SchemaView)>,
)
    ensures
        table.is_prefix_of(close(table, providers)),
        distinct_keys(table) ==> distinct_keys(close(table, providers)),
        forall|name: Seq<char>|
            distinct_keys(table) && has_key(table, name) ==> lookup(close(table, providers), name)
                == lookup(table, name),
{
    let closed = close(table, providers);
    lemma_close_from_entries(table, 0, providers);
    assert forall|name: Seq<char>| distinct_keys(table) && has_key(table, name) implies lookup(
        closed,
        name,
    ) == lookup(table, name) by {
        let i = position(table, name);
        assert(closed[i] == table[i]);
        crate::ordered::lemma_position_unique(closed, i);
        crate::ordered::lemma_position_unique(table, i);
    }
}

/// `table` is closed under references: each name that the schema of one of
/// its entries refers to, and that a provider is registered for, has an
/// entry.
pub open spec fn is_closed(
    table: Seq<(Seq<char>, SchemaView)>,
    providers: Seq<(Seq<char>, SchemaView)>,
) -> bool {
    forall|j: int, name: Seq<char>|
        0 <= j < table.len() && mentions((#[trigger] table[j]).1, name) && has_key(providers, name)
            ==> #[trigger] has_key(table, name)
}

/// Closure is complete: in the closed table each name that the schema of an
/// entry refers to, and that a provider is registered for, has an entry.
pub proof fn lemma_close_is_complete(
    table: Seq<(Seq<char>, SchemaView)>,
    providers: Seq<(Seq<char>, SchemaView)>,
)
    ensures
        is_closed(close(table, providers), providers),
{
    let closed = close(table, providers);
    lemma_close_from_entries(table, 0, providers);
    assert forall|j: int, name: Seq<char>|
        0 <= j < closed.len() && mentions((#[trigger] closed[j]).1, name) && has_key(
            providers,
            name,
        ) implies #[trigger] has_key(closed, name) by {
        lemma_provided(providers, name);
    }
}

/// A closed table holds nothing without a reason: each entry that closing
/// added carries a name that the table lacked, that an earlier entry refers
/// to, and the schema of the last provider registered under that name.
pub proof fn lemma_close_adds_only_references(
    table: Seq<(Seq<char>, SchemaView)>,
    providers: Seq<(Seq<char>, SchemaView)>,
)
    ensures
        forall|k: int|
            table.len() <= k < close(table, providers).len() ==> {
                let entry = #[trigger] close(table, providers)[k];
                &&& provided(providers, entry.0) == Some(entry.1)
                &&& !has_key(table, entry.0)
                &&& exists|j: int|
                    0 <= j < k && mentions((#[trigger] close(table, providers)[j]).1, entry.0)
            },
{
    lemma_close_from_entries(table, 0, providers);
}

/// The names that providers are registered under.
pub open spec fn provider_names(providers: Seq<(Seq<char>, SchemaView)>) -> Set<Seq<char>> {
    Seq::new(providers.len(), |i: int| providers[i].0).to_set()
}

/// Closure enters each name once at the most: beside the entries that the
/// table started with, the closed table holds no more entries than there are
/// names that providers are registered under.
pub proof fn lemma_close_enters_each_name_once(
    table: Seq<(Seq<char>, SchemaView)>,
    providers: Seq<(Seq<char>, SchemaView)>,
)
    requires
        distinct_keys(table),
    ensures
        provider_names(providers).finite(),
        close(table, providers).len() <= table.len() + provider_names(providers).len(),
{
    let closed = close(table, providers);
    let names = Seq::new(providers.len(), |i: int| providers[i].0);
    let start = table.len() as int;
    lemma_close_keeps_entries(table, providers);
    lemma_close_adds_only_references(table, providers);
    let added = Seq::new((closed.len() - start) as nat, |k: int| closed[start + k].0);
    assert(added.no_duplicates()) by {
        assert forall|i: int, j: int| 0 <= i < added.len() && 0 <= j < added.len() && i
            != j implies added[i] != added[j] by {
            if i < j {
                assert(closed[start + i].0 != closed[start + j].0);
            } else {
                assert(closed[start + j].0 != closed[start + i].0);
            }
        }
    }
    vstd::seq_lib::seq_to_set_is_finite(names);
    assert(added.to_set().subset_of(names.to_set())) by {
        assert forall|name: Seq<char>| added.to_set().contains(name) implies names.to_set()
            .contains(name) by {
            let k = choose|k: int| 0 <= k < added.len() && added[k] == name;
            let entry = closed[start + k];
            assert(provided(providers, entry.0) == Some(entry.1));
            lemma_provided(providers, name);
            let i = position(providers, name);
            assert(names[i] == name);
        }
    }
    added.unique_seq_to_set();
    vstd::set_lib::lemma_len_subset(added.to_set(), names.to_set());
}

/// Resolving names that all have an entry or no provider changes nothing.
pub proof fn lemma_resolve_all_of_resolved(
    table: Seq<(Seq<char>, SchemaView)>,
    wanted: Seq<Seq<char>>,
    providers: Seq<(Seq<char>, SchemaView)>,
)
    requires
        forall|i: int|
            0 <= i < wanted.len() ==> has_key(table, #[trigger] wanted[i]) || provided(
                providers,
                wanted[i],
            ) is None,
    ensures
        resolve_all(table, wanted, providers) == table,
    decreases wanted.len(),
{
    if wanted.len() > 0 {
        let front = wanted.drop_last();
        assert forall|i: int| 0 <= i < front.len() implies has_key(table, #[trigger] front[i])
            || provided(providers, front[i]) is None by {
            assert(front[i] == wanted[i]);
        }
        lemma_resolve_all_of_resolved(table, front, providers);
        assert(wanted[wanted.len() - 1] == wanted.last());
    }
}

/// Going through a closed table leaves it as it is.
pub proof fn lemma_close_from_of_closed(
    table: Seq<(Seq<char>, SchemaView)>,
    next: nat,
    providers: Seq<(Seq<char>, SchemaView)>,
)
    requires
        is_closed(table, providers),
    ensures
        close_from(table, next, providers) == table,
    decreases table.len() - next,
{
    if next < table.len() {
        let wanted = ref_order(table[next as int].1);
        crate::references::lemma_ref_order(table[next as int].1);
        assert forall|i: int| 0 <= i < wanted.len() implies has_key(table, #[trigger] wanted[i])
            || provided(providers, wanted[i]) is None by {
            lemma_provided(providers, wanted[i]);
            assert(wanted.contains(wanted[i]));
            assert(mentions(table[next as int].1, wanted[i]));
        }
        lemma_resolve_all_of_resolved(table, wanted, providers);
        lemma_close_from_of_closed(table, next + 1, providers);
    }
}

/// Closing is idempotent: the closed table is closed, and closing it once
/// more changes nothing.
pub proof fn lemma_close_is_idempotent(
    table: Seq<(Seq<char>, SchemaView)>,
    providers: Seq<(Seq<char>, SchemaView)>,
)
    ensures
        is_closed(close(table, providers), providers),
        close(close(table, providers), providers) == close(table, providers),
{
    lemma_close_is_complete(table, providers);
    lemma_close_from_of_closed(close(table, providers), 0, providers);
}

/// The schema that `name` stands for once `table` is closed: the schema of its
/// entry in `table`, or else the schema provided for it.
pub open spec fn resolved_schema(
    table: Seq<(Seq<char>, SchemaView)>,
    providers: Seq<(Seq<char>, SchemaView)>,
    name: Seq<char>,
) -> Option<SchemaView> {
    if has_key(table, name) {
        lookup(table, name)
    } else {
        provided(providers, name)
    }
}

/// `chain` leads from `table` to its last name by references: it starts at a
/// name of `table`, and the schema that each of its names stands for refers to
/// the name that follows, which is a name of `table` or has a provider.
pub open spec fn is_reference_chain(
    table: Seq<(Seq<char>, SchemaView)>,
    providers: Seq<(Seq<char>, SchemaView)>,
    chain: Seq<Seq<char>>,
) -> bool {
    &&& chain.len() > 0
    &&& has_key(table, chain[0])
    &&& forall|i: int|
        0 < i < chain.len() ==> {
            &&& has_key(table, #[trigger] chain[i]) || has_key(providers, chain[i])
            &&& match resolved_schema(table, providers, chain[i - 1]) {
                Some(schema) => mentions(schema, chain[i]),
                None => false,
            }
        }
}

/// Closure is complete: every name that a chain of references leads to from
/// a table has an entry in the closed table, with the schema that it stands
/// for.
pub proof fn lemma_close_reaches(
    table: Seq<(Seq<char>, SchemaView)>,
    providers: Seq<(Seq<char>, SchemaView)>,
    chain: Seq<Seq<char>>,
)
    requires
        distinct_keys(table),
        is_reference_chain(table, providers, chain),
    ensures
        has_key(close(table, providers), chain.last()),
        lookup(close(table, providers), chain.last()) == resolved_schema(
            table,
            providers,
            chain.last(),
        ),
    decreases chain.len(),
{
    let closed = close(table, providers);
    let name = chain.last();
    lemma_close_keeps_entries(table, providers);
    lemma_close_is_complete(table, providers);
    lemma_close_adds_only_references(table, providers);
    lemma_grown_keys(table, closed);
    if chain.len() > 1 {
        let front = chain.drop_last();
        let previous = front.last();
        assert forall|i: int| 0 < i < front.len() implies {
            &&& has_key(table, #[trigger] front[i]) || has_key(providers, front[i])
            &&& match resolved_schema(table, providers, front[i - 1]) {
                Some(schema) => mentions(schema, front[i]),
                None => false,
            }
        } by {
            assert(front[i] == chain[i]);
            assert(front[i - 1] == chain[i - 1]);
        }
        assert(front[0] == chain[0]);
        lemma_close_reaches(table, providers, front);
        assert(previous == chain[chain.len() - 2]);
        assert(name == chain[chain.len() - 1]);
        let j = position(closed, previous);
        crate::ordered::lemma_position_unique(closed, j);
        assert(mentions(closed[j].1, name));
        if !has_key(table, name) {
            assert(has_key(closed, name));
        }
    }
    if !has_key(table, name) {
        let k = position(closed, name);
        crate::ordered::lemma_position_unique(closed, k);
        if k < table.len() {
            assert(table[k] == closed[k]);
        }
    }
}

/// Closure does not look into arrays, nor anywhere else where `mentions`
/// finds nothing: a name that the table lacks, and that neither a schema of
/// the table nor a provided schema refers to outside array items, has no
/// entry in the closed table, whether a provider is registered for it or not.
pub proof fn lemma_close_skips_unmentioned(
    table: Seq<(Seq<char>, SchemaView)>,
    providers: Seq<(Seq<char>, SchemaView)>,
    name: Seq<char>,
)
    requires
        !has_key(table, name),
        forall|i: int| 0 <= i < table.len() ==> !mentions((#[trigger] table[i]).1, name),
        forall|i: int| 0 <= i < providers.len() ==> !mentions((#[trigger] providers[i]).1, name),
    ensures
        !has_key(close(table, providers), name),
{
    let closed = close(table, providers);
    lemma_close_keeps_entries(table, providers);
    lemma_close_adds_only_references(table, providers);
    if has_key(closed, name) {
        let k = position(closed, name);
        if k < table.len() {
            assert(table[k] == closed[k]);
        }
        let j = choose|j: int| 0 <= j < k && mentions((#[trigger] closed[j]).1, closed[k].0);
        if j < table.len() {
            assert(table[j] == closed[j]);
        } else {
            lemma_provided(providers, closed[j].0);
            let i = choose|i: int|
                0 <= i < providers.len() && #[trigger] providers[i] == (closed[j].0, closed[j].1);
            assert(mentions(providers[i].1, name));
        }
    }
}

/// The provider entries by name, each with its place among `providers`.
pub open spec fn places(providers: Seq<(Seq<char>, SchemaView)>) -> Seq<(Seq<char>, usize)> {
    Seq::new(providers.len(), |i: int| (providers[i].0, i as usize))
}

/// The lookup map of `providers`: each name with the place of the last
/// provider registered under it, the names in the order in which they are
/// first registered.
pub open spec fn provider_index(providers: Seq<(Seq<char>, SchemaView)>) -> Seq<
    (Seq<char>, usize),
> {
    put_all(Seq::empty(), places(providers))
}

/// The lookup map finds, for each name, the place of the last provider
/// registered under it, and nothing for a name without a provider.
pub proof fn lemma_provider_index(providers: Seq<(Seq<char>, SchemaView)>, name: Seq<char>)
    requires
        providers.len() <= usize::MAX,
    ensures
        match lookup(provider_index(providers), name) {
            Some(place) => place < providers.len() && providers[place as int].0 == name
                && provided(providers, name) == Some(providers[place as int].1),
            None => provided(providers, name) is None,
        },
    decreases providers.len(),
{
    let none = Seq::<(Seq<char>, usize)>::empty();
    if providers.len() == 0 {
        assert(places(providers) =~= none);
        if has_key(none, name) {
            let k = position(none, name);
            assert(0 <= k < none.len());
        }
    } else {
        let front = providers.drop_last();
        let last = providers.len() - 1;
        lemma_provider_index(front, name);
        assert(places(providers).drop_last() =~= places(front));
        assert(places(providers).last() == (providers[last].0, last as usize));
        crate::ordered::lemma_put_all(none, places(front));
        crate::ordered::lemma_put(provider_index(front), providers[last].0, last as usize);
        if providers[last].0 != name {
            match lookup(provider_index(front), name) {
                Some(place) => {
                    assert(front[place as int] == providers[place as int]);
                },
                None => {},
            }
        }
    }
}

/// Builds the lookup map from provider names to the places of their
/// entries. Where several providers share a name, the last one is found.
pub fn index_providers<P: Fn() -> Schema>(providers: &Vec<SchemaProvider<P>>) -> (index:
    OrderedMap<usize>)
    ensures
        index@ == provider_index(providers_view(*providers)),
{
    let ghost all = places(providers_view(*providers));
    let mut index: OrderedMap<usize> = OrderedMap::new();
    let mut i: usize = 0;
    assert(all.take(0) =~= Seq::<(Seq<char>, usize)>::empty());
    while i < providers.len()
        invariant
            i <= providers.len(),
            all == places(providers_view(*providers)),
            index@ == put_all(Seq::empty(), all.take(i as int)),
        decreases providers.len() - i,
    {
        proof {
            assert(all.take(i + 1).drop_last() =~= all.take(i as int));
            assert(all.take(i + 1).last() == (providers[i as int].name@, i));
        }
        index.insert(providers[i].name.clone(), i);
        i += 1;
    }
    assert(all.take(i as int) =~= all);
    index
}

/// Closes `schemas` under references: goes through the table from its first
/// entry on, and enters each name that an entry refers to, that has no entry
/// yet and that a provider is registered for, at the end of the table, with
/// the schema that the last provider of that name produces.
///
/// A name without a provider gets no entry: the reference to it is left
/// dangling. The entries that the table holds at the start keep their places
/// and their schemas.
pub fn resolve_references<P: Fn() -> Schema>(
    schemas: &mut OrderedMap<Schema>,
    providers: &Vec<SchemaProvider<P>>,
)
    requires
        forall|i: int| 0 <= i < providers.len() ==> (#[trigger] providers[i]).wf(),
    ensures
        final(schemas)@ == close(old(schemas)@, providers_view(*providers)),
{
    let ghost all = providers_view(*providers);
    let index = index_providers(providers);
    let mut next: usize = 0;
    while next < schemas.len()
        invariant
            all == providers_view(*providers),
            index@ == provider_index(all),
            forall|i: int| 0 <= i < providers.len() ==> (#[trigger] providers[i]).wf(),
            close_from(schemas@, next as nat, all) == close(old(schemas)@, all),
        decreases unresolved(all, schemas@) + schemas@.len() - next,
    {
        let ghost start = schemas@;
        let refs = extract_schema_refs(schemas.value_at(next));
        let ghost wanted = names(refs@);
        proof {
            lemma_resolve_all(start, wanted, all);
        }
        let mut k: usize = 0;
        assert(wanted.take(0) =~= Seq::<Seq<char>>::empty());
        while k < refs.len()
            invariant
                k <= refs.len(),
                wanted == names(refs@),
                all == providers_view(*providers),
                index@ == provider_index(all),
                forall|i: int| 0 <= i < providers.len() ==> (#[trigger] providers[i]).wf(),
                schemas@ == resolve_all(start, wanted.take(k as int), all),
            decreases refs.len() - k,
        {
            proof {
                assert(wanted.take(k + 1).drop_last() =~= wanted.take(k as int));
                assert(wanted.take(k + 1).last() == refs[k as int]@);
            }
            proof {
                lemma_provider_index(all, refs[k as int]@);
            }
            if !schemas.contains_key(&refs[k]) {
                match index.get(&refs[k]) {
                    Some(place) => {
                        let schema = providers[*place].produce();
                        schemas.insert(refs[k].clone(), schema);
                        assert(schemas@ == resolve_all(start, wanted.take(k + 1), all));
                    },
                    None => {},
                }
            }
            k += 1;
        }
        assert(wanted.take(k as int) =~= wanted);
        next += 1;
    }
}

} // verus!
