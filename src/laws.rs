//! Properties that relate the library's functions, proved over the
//! specifications that their contracts use.
use vstd::prelude::*;

use crate::ast::{Field, FragmentDefinition, FragmentSpread, Pos, Selection, VariableDefinition};
use crate::collect::{expand, fragment_named, grouped, included, lookup};
use crate::execution::{
    completed, completed_fields, fields_errors, node_errors, propagated_message, slot,
    slot_errors, PathSegment, Resolved, ResolvedField,
};
use crate::projection::{projected, projected_entries, sub_selections};
use crate::schema::{
    all_resolve, def_resolves, type_known, GqlDirectiveDefinition, GqlTypeDefinition,
};
use crate::validation::{field_type, items_errors, leaf_message, leaf_status, selection_errors};
use crate::value::{GqlValue, ValueModel};
use crate::variables::{coerced, lemma_coerced_err_stays};

verus! {

/// A field of an object or interface whose declared type is neither defined
/// nor a built-in scalar leaves the schema's references unresolved, so
/// `build_schema` does not succeed; where no name is duplicated and the root
/// types exist, it fails with `UnresolvedTypeReference`.
pub proof fn unknown_field_type_is_unresolved(
    defs: Seq<GqlTypeDefinition>,
    dirs: Seq<GqlDirectiveDefinition>,
    i: int,
    k: int,
)
    requires
        0 <= i < defs.len(),
        0 <= k < defs[i].spec_fields().len(),
        !type_known(defs, defs[i].spec_fields()[k].meta_type.base_name()),
    ensures
        !all_resolve(defs, dirs),
{
    assert(!def_resolves(defs, defs[i]));
}

/// A leaf-typed field that carries selections is reported by the leaf rule,
/// at the field's position, among the errors of the selections around it.
pub proof fn leaf_field_with_selections_is_reported(
    defs: Seq<GqlTypeDefinition>,
    parent: Option<Seq<char>>,
    items: Seq<Selection>,
    k: int,
    t: Seq<char>,
)
    requires
        0 <= k < items.len(),
        items[k] is Field,
        field_type(defs, parent, items[k]->Field_0.name@) == Some(t),
        leaf_status(defs, t) == Some(true),
        items[k]->Field_0.selection_set.items@.len() > 0,
    ensures
        items_errors(defs, parent, items).contains(
            (leaf_message(items[k]->Field_0.name@, t), seq![items[k]->Field_0.position]),
        ),
{
    let f = items[k]->Field_0;
    let e = (leaf_message(f.name@, t), seq![f.position]);
    assert(selection_errors(defs, parent, items[k])[0] == e);
    lemma_selection_error_surfaces(defs, parent, items, k, 0);
}

/// An error of one selection is among the errors of the sequence it is in.
pub proof fn lemma_selection_error_surfaces(
    defs: Seq<GqlTypeDefinition>,
    parent: Option<Seq<char>>,
    items: Seq<Selection>,
    k: int,
    m: int,
)
    requires
        0 <= k < items.len(),
        0 <= m < selection_errors(defs, parent, items[k]).len(),
    ensures
        items_errors(defs, parent, items).contains(selection_errors(defs, parent, items[k])[m]),
    decreases items.len(),
{
    let last = items.len() - 1;
    let front = items.subrange(0, last);
    let e = selection_errors(defs, parent, items[k])[m];
    let pre = items_errors(defs, parent, front);
    if k == last {
        assert(items_errors(defs, parent, items)[pre.len() + m] == e);
    } else {
        lemma_selection_error_surfaces(defs, parent, front, k, m);
        let j = choose|j: int| 0 <= j < pre.len() && pre[j] == e;
        assert(items_errors(defs, parent, items)[j] == e);
    }
}

/// The errors found inside a field's selections are among the errors of the
/// selections around the field, so a violation at any depth is reported.
pub proof fn nested_field_errors_surface(
    defs: Seq<GqlTypeDefinition>,
    parent: Option<Seq<char>>,
    items: Seq<Selection>,
    k: int,
    e: (Seq<char>, Seq<Pos>),
)
    requires
        0 <= k < items.len(),
        items[k] is Field,
        items_errors(
            defs,
            field_type(defs, parent, items[k]->Field_0.name@),
            items[k]->Field_0.selection_set.items@,
        ).contains(e),
    ensures
        items_errors(defs, parent, items).contains(e),
{
    let f = items[k]->Field_0;
    let inner = items_errors(defs, field_type(defs, parent, f.name@), f.selection_set.items@);
    let own = crate::validation::scalar_leafs_errors(defs, parent, f);
    let j = choose|j: int| 0 <= j < inner.len() && inner[j] == e;
    assert(selection_errors(defs, parent, items[k])[own.len() + j] == e);
    lemma_selection_error_surfaces(defs, parent, items, k, own.len() + j);
}

/// A spread of a fragment that the expansion has already visited adds no
/// fields: this is what ends the expansion of fragments that spread each
/// other.
pub proof fn visited_spread_adds_nothing(
    frags: Seq<FragmentDefinition>,
    vars: Seq<(String, GqlValue)>,
    spread: FragmentSpread,
    rest: Seq<Selection>,
    visited: Set<Seq<char>>,
)
    requires
        visited.contains(spread.fragment_name@),
    ensures
        expand(frags, vars, seq![Selection::FragmentSpread(spread)] + rest, visited) == expand(
            frags,
            vars,
            rest,
            visited,
        ),
{
    let work = seq![Selection::FragmentSpread(spread)] + rest;
    assert(work.subrange(1, work.len() as int) =~= rest);
    assert(work[0] == Selection::FragmentSpread(spread));
}

/// The first spread of a fragment puts that fragment's selections in its
/// place and marks the fragment visited, so later spreads of it add nothing.
pub proof fn first_spread_expands_fragment(
    frags: Seq<FragmentDefinition>,
    vars: Seq<(String, GqlValue)>,
    spread: FragmentSpread,
    rest: Seq<Selection>,
    visited: Set<Seq<char>>,
)
    requires
        !visited.contains(spread.fragment_name@),
        included(spread.directives@, vars),
        fragment_named(frags, spread.fragment_name@) is Some,
    ensures
        expand(frags, vars, seq![Selection::FragmentSpread(spread)] + rest, visited) == expand(
            frags,
            vars,
            fragment_named(frags, spread.fragment_name@)->Some_0.selection_set.items@ + rest,
            visited.insert(spread.fragment_name@),
        ),
{
    let work = seq![Selection::FragmentSpread(spread)] + rest;
    assert(work.subrange(1, work.len() as int) =~= rest);
    assert(work[0] == Selection::FragmentSpread(spread));
}

/// A non-null variable of a known type with neither a supplied value nor a
/// default makes coercion fail; where no earlier variable failed, the error
/// names it.
pub proof fn missing_non_null_variable_fails(
    defs: Seq<GqlTypeDefinition>,
    vars: Seq<VariableDefinition>,
    input: Seq<(String, GqlValue)>,
    k: int,
)
    requires
        0 <= k < vars.len(),
        vars[k].var_type is NonNullType,
        type_known(defs, vars[k].var_type.base_name()),
        lookup(input, vars[k].name@) is None,
        vars[k].default_value is None,
    ensures
        coerced(defs, vars, input) is Err,
        coerced(defs, vars.subrange(0, k), input) is Ok ==> coerced(defs, vars, input) == Err::<
            Seq<(Seq<char>, ValueModel)>,
            Seq<char>,
        >(vars[k].name@),
{
    let pre = vars.subrange(0, k + 1);
    assert(pre.drop_last() =~= vars.subrange(0, k));
    assert(pre.last() == vars[k]);
    if coerced(defs, vars.subrange(0, k), input) is Err {
        lemma_coerced_err_stays(defs, pre, input, k);
        assert(pre.subrange(0, k) =~= vars.subrange(0, k));
    }
    lemma_coerced_err_stays(defs, vars, input, k + 1);
}

/// A completed object has one entry per field, under the field's response
/// key, in the order of the fields: the query's order, whatever order the
/// resolvers finished in.
pub proof fn completed_keys_follow_field_order(fields: Seq<ResolvedField>, n: int)
    requires
        0 <= n <= fields.len(),
        completed_fields(fields, n) is Some,
    ensures
        completed_fields(fields, n)->Some_0.len() == n,
        forall|i: int|
            0 <= i < n ==> (#[trigger] completed_fields(fields, n)->Some_0[i]).0 == fields[i].key@,
    decreases n,
{
    if n > 0 {
        completed_keys_follow_field_order(fields, n - 1);
    }
}

/// The response object that completing resolved fields gives has their
/// response keys, in their order.
pub proof fn response_keys_follow_query_order(fields: Vec<ResolvedField>)
    requires
        completed(Resolved::Object(fields)) is Some,
    ensures
        completed(Resolved::Object(fields))->Some_0 is Object,
        ({
            let es = completed(Resolved::Object(fields))->Some_0->Object_0;
            &&& es.len() == fields@.len()
            &&& forall|i: int| 0 <= i < es.len() ==> #[trigger] es[i].0 == fields@[i].key@
        }),
{
    completed_keys_follow_field_order(fields@, fields@.len() as int);
}

/// The entries that projecting an object gives carry the response keys of
/// the merged selections, in their order.
pub proof fn projected_keys_follow_groups(
    frags: Seq<FragmentDefinition>,
    vars: Seq<(String, GqlValue)>,
    groups: Seq<(Seq<char>, Seq<Field>)>,
    es: Seq<(Seq<char>, ValueModel)>,
    n: int,
)
    requires
        0 <= n <= groups.len(),
    ensures
        projected_entries(frags, vars, groups, es, n).len() == n,
        forall|i: int|
            0 <= i < n ==> (#[trigger] projected_entries(frags, vars, groups, es, n)[i]).0
                == groups[i].0,
    decreases n,
{
    if n > 0 {
        projected_keys_follow_groups(frags, vars, groups, es, n - 1);
    }
}

/// Projecting an object through selections gives an object whose keys are
/// the response keys of the merged selections in the query's order, whatever
/// the order of the object's own entries.
pub proof fn projection_follows_query_order(
    frags: Seq<FragmentDefinition>,
    vars: Seq<(String, GqlValue)>,
    fields: Seq<Field>,
    es: Seq<(Seq<char>, ValueModel)>,
)
    requires
        sub_selections(fields).len() > 0,
    ensures
        ({
            let groups = grouped(expand(frags, vars, sub_selections(fields), Set::empty()));
            let r = projected(frags, vars, fields, ValueModel::Object(es));
            &&& r is Object
            &&& r->Object_0.len() == groups.len()
            &&& forall|i: int| 0 <= i < groups.len() ==> #[trigger] r->Object_0[i].0 == groups[i].0
        }),
{
    let groups = grouped(expand(frags, vars, sub_selections(fields), Set::empty()));
    projected_keys_follow_groups(frags, vars, groups, es, groups.len() as int);
}

/// Where every field fills its slot, the object completes, each entry
/// holding the value of its slot.
pub proof fn lemma_all_slots_filled(fields: Seq<ResolvedField>, n: int)
    requires
        0 <= n <= fields.len(),
        forall|i: int|
            0 <= i < n ==> (#[trigger] slot(completed(fields[i].node), fields[i].non_null)) is Some,
    ensures
        completed_fields(fields, n) is Some,
        forall|i: int|
            0 <= i < n ==> (#[trigger] completed_fields(fields, n)->Some_0[i]) == (
                fields[i].key@,
                slot(completed(fields[i].node), fields[i].non_null)->Some_0,
            ),
    decreases n,
{
    if n > 0 {
        lemma_all_slots_filled(fields, n - 1);
        completed_keys_follow_field_order(fields, n - 1);
        let v = slot(completed(fields[n - 1].node), fields[n - 1].non_null);
        assert(v is Some);
        let prev = completed_fields(fields, n - 1)->Some_0;
        let now = completed_fields(fields, n)->Some_0;
        assert(now == prev.push((fields[n - 1].key@, v->Some_0)));
        assert forall|i: int| 0 <= i < n implies (#[trigger] completed_fields(fields, n)->Some_0[i])
            == (fields[i].key@, slot(completed(fields[i].node), fields[i].non_null)->Some_0) by {
            if i < n - 1 {
                assert(now[i] == prev[i]);
            }
        }
    }
}

/// The errors that filling the slot of field `j` adds are among the errors
/// of the first `n` fields.
pub proof fn lemma_slot_errors_surface(
    fields: Seq<ResolvedField>,
    n: int,
    path: Seq<PathSegment>,
    j: int,
    m: int,
)
    requires
        0 <= j < n <= fields.len(),
        0 <= m < slot_errors(
            fields[j].node,
            fields[j].non_null,
            path.push(PathSegment::Field(fields[j].key)),
        ).len(),
    ensures
        fields_errors(fields, n, path).contains(
            slot_errors(
                fields[j].node,
                fields[j].non_null,
                path.push(PathSegment::Field(fields[j].key)),
            )[m],
        ),
    decreases n,
{
    let p = path.push(PathSegment::Field(fields[j].key));
    let e = slot_errors(fields[j].node, fields[j].non_null, p)[m];
    if j == n - 1 {
        let pre = fields_errors(fields, n - 1, path) + node_errors(fields[j].node, p);
        assert(fields_errors(fields, n, path)[pre.len() + m] == e);
    } else {
        lemma_slot_errors_surface(fields, n - 1, path, j, m);
        let pre = fields_errors(fields, n - 1, path);
        let i = choose|i: int| 0 <= i < pre.len() && pre[i] == e;
        assert(fields_errors(fields, n, path)[i] == e);
    }
}

/// When a non-null field inside the value of nullable field `j` fails, the
/// value of field `j` becomes null and a new error is recorded at field
/// `j`'s path, while every other field keeps its completed value.
pub proof fn failed_non_null_field_nulls_nearest_nullable(
    fields: Seq<ResolvedField>,
    j: int,
    path: Seq<PathSegment>,
)
    requires
        0 <= j < fields.len(),
        !fields[j].non_null,
        fields[j].node is Object,
        completed(fields[j].node) is None,
        forall|i: int|
            0 <= i < fields.len() && i != j ==> (#[trigger] slot(
                completed(fields[i].node),
                fields[i].non_null,
            )) is Some,
    ensures
        completed_fields(fields, fields.len() as int) is Some,
        ({
            let es = completed_fields(fields, fields.len() as int)->Some_0;
            &&& es[j] == (fields[j].key@, ValueModel::Null)
            &&& forall|i: int|
                0 <= i < fields.len() && i != j ==> #[trigger] es[i] == (
                    fields[i].key@,
                    slot(completed(fields[i].node), fields[i].non_null)->Some_0,
                )
        }),
        fields_errors(fields, fields.len() as int, path).contains(
            (propagated_message(), path.push(PathSegment::Field(fields[j].key))),
        ),
{
    assert(slot(completed(fields[j].node), fields[j].non_null) == Some(ValueModel::Null));
    lemma_all_slots_filled(fields, fields.len() as int);
    let p = path.push(PathSegment::Field(fields[j].key));
    assert(slot_errors(fields[j].node, false, p)[0] == (propagated_message(), p));
    lemma_slot_errors_surface(fields, fields.len() as int, path, j, 0);
}

} // verus!
