use vstd::prelude::*;

use crate::ast::{derefs, Field, FragmentDefinition, Selection};
use crate::execution::{Resolved, ResolvedField};
use crate::schema::{field_named, type_named, GqlTypeDefinition, Schema};
use crate::value_type::GqlValueType;
use crate::collect::{collect_items, expand, grouped, groups_view, item_refs};
use crate::value::{
    entries_model, items_model, lemma_entries_model_index, lemma_entries_model_prefix,
    lemma_items_model_index, lemma_items_model_prefix, GqlValue, ValueModel,
};

verus! {

/// The selections of a group of fields, one field's after another.
pub open spec fn sub_selections(fields: Seq<Field>) -> Seq<Selection>
    decreases fields.len(),
{
    if fields.len() == 0 {
        Seq::empty()
    } else {
        sub_selections(fields.drop_last()) + fields.last().selection_set.items@
    }
}

/// The position of the first entry at or after `start` whose key is `key`,
/// or -1.
pub open spec fn first_index(es: Seq<(Seq<char>, ValueModel)>, key: Seq<char>, start: int) -> int
    decreases es.len() - start,
{
    if start < 0 || start >= es.len() {
        -1
    } else if es[start].0 == key {
        start
    } else {
        first_index(es, key, start + 1)
    }
}

/// The name under which a group's value is looked up: its first field's name.
pub open spec fn lookup_name(group: (Seq<char>, Seq<Field>)) -> Seq<char> {
    if group.1.len() > 0 {
        group.1[0].name@
    } else {
        group.0
    }
}

/// The part of a value that a group of fields selects. Without selections
/// the value is kept whole; an object keeps, for each response key of the
/// merged selections in their order, the projection of its entry named by
/// the key's first field (null where it has none); a list projects each item.
pub open spec fn projected(
    frags: Seq<FragmentDefinition>,
    vars: Seq<(String, GqlValue)>,
    fields: Seq<Field>,
    v: ValueModel,
) -> ValueModel
    decreases v, 0int,
{
    let sub = sub_selections(fields);
    if sub.len() == 0 {
        v
    } else {
        match v {
            ValueModel::Object(es) => {
                let groups = grouped(expand(frags, vars, sub, Set::empty()));
                ValueModel::Object(
                    projected_entries(frags, vars, groups, es, groups.len() as int),
                )
            },
            ValueModel::List(items) => ValueModel::List(
                projected_items(frags, vars, fields, items, items.len() as int),
            ),
            _ => v,
        }
    }
}

/// The projected entries of the first `n` groups.
pub open spec fn projected_entries(
    frags: Seq<FragmentDefinition>,
    vars: Seq<(String, GqlValue)>,
    groups: Seq<(Seq<char>, Seq<Field>)>,
    es: Seq<(Seq<char>, ValueModel)>,
    n: int,
) -> Seq<(Seq<char>, ValueModel)>
    decreases es, n,
{
    if n <= 0 || n > groups.len() {
        Seq::empty()
    } else {
        let g = groups[n - 1];
        let i = first_index(es, lookup_name(g), 0);
        let v = if 0 <= i < es.len() {
            projected(frags, vars, g.1, es[i].1)
        } else {
            ValueModel::Null
        };
        projected_entries(frags, vars, groups, es, n - 1).push((g.0, v))
    }
}

/// The projections of the first `n` items.
pub open spec fn projected_items(
    frags: Seq<FragmentDefinition>,
    vars: Seq<(String, GqlValue)>,
    fields: Seq<Field>,
    items: Seq<ValueModel>,
    n: int,
) -> Seq<ValueModel>
    decreases items, n,
{
    if n <= 0 || n > items.len() {
        Seq::empty()
    } else {
        projected_items(frags, vars, fields, items, n - 1).push(
            projected(frags, vars, fields, items[n - 1]),
        )
    }
}

proof fn lemma_first_index(es: Seq<(Seq<char>, ValueModel)>, key: Seq<char>, start: int, i: int)
    requires
        0 <= start <= i,
        forall|j: int| start <= j < i ==> es[j].0 != key,
        i < es.len() ==> es[i].0 == key,
        i <= es.len(),
    ensures
        first_index(es, key, start) == if i < es.len() {
            i
        } else {
            -1
        },
    decreases i - start,
{
    if start < i {
        lemma_first_index(es, key, start + 1, i);
    }
}

/// References to the selections of each field of a group, in order.
fn group_selections<'a>(fields: &Vec<&'a Field>) -> (r: Vec<&'a Selection>)
    ensures
        derefs(r@) == sub_selections(derefs(fields@)),
{
    let mut r: Vec<&'a Selection> = Vec::new();
    let mut i: usize = 0;
    assert(derefs(fields@).subrange(0, 0) =~= Seq::<Field>::empty());
    while i < fields.len()
        invariant
            i <= fields@.len(),
            derefs(r@) == sub_selections(derefs(fields@).subrange(0, i as int)),
        decreases fields.len() - i,
    {
        let f: &'a Field = fields[i];
        let mut more = item_refs(&f.selection_set.items);
        let ghost before = r@;
        r.append(&mut more);
        assert(derefs(r@) =~= derefs(before) + f.selection_set.items@);
        assert(derefs(fields@).subrange(0, i + 1).drop_last() =~= derefs(fields@).subrange(
            0,
            i as int,
        ));
        i = i + 1;
    }
    assert(derefs(fields@).subrange(0, i as int) =~= derefs(fields@));
    r
}

/// Keeps the part of a resolved value that a group of fields selects, as
/// `projected` describes: objects come out in the query's field order,
/// under response keys.
pub fn project<'a>(
    fragments: &'a Vec<FragmentDefinition>,
    variables: &Vec<(String, GqlValue)>,
    fields: &Vec<&'a Field>,
    v: &GqlValue,
) -> (r: GqlValue)
    ensures
        r.model() == projected(fragments@, variables@, derefs(fields@), v.model()),
    decreases v,
{
    broadcast use vstd::std_specs::vec::group_vec_axioms;

    let work = group_selections(fields);
    if work.len() == 0 {
        return v.clone();
    }
    let ghost frags = fragments@;
    let ghost vars = variables@;
    let ghost fs = derefs(fields@);
    match v {
        GqlValue::Object(entries) => {
            let groups = collect_items(fragments, variables, work);
            let ghost gv = groups_view(groups@);
            let ghost es = entries_model(entries@, entries@.len() as int);
            proof {
                lemma_entries_model_index(entries@, entries@.len() as int);
            }
            let mut out: Vec<(String, GqlValue)> = Vec::new();
            let mut j: usize = 0;
            while j < groups.len()
                invariant
                    j <= groups@.len(),
                    gv == groups_view(groups@),
                    gv.len() == groups@.len(),
                    *v == GqlValue::Object(*entries),
                    es == entries_model(entries@, entries@.len() as int),
                    es.len() == entries@.len(),
                    forall|k: int|
                        0 <= k < entries@.len() ==> #[trigger] es[k] == (
                            entries@[k].0@,
                            entries@[k].1.model(),
                        ),
                    out@.len() == j,
                    entries_model(out@, j as int) == projected_entries(frags, vars, gv, es, j as int),
                    frags == fragments@,
                    vars == variables@,
                decreases groups.len() - j,
            {
                let key = groups[j].0.clone();
                let group = &groups[j].1;
                let name = if group.len() > 0 {
                    group[0].name.clone()
                } else {
                    key.clone()
                };
                assert(gv[j as int] == (groups@[j as int].0@, derefs(groups@[j as int].1@)));
                assert(name@ == lookup_name(gv[j as int]));
                let found = crate::value::find_entry(entries, &name);
                let value = match found {
                    Some(i) => {
                        proof {
                            lemma_first_index(es, name@, 0, i as int);
                        }
                        assert(decreases_to!(*v => v->Object_0));
                        assert(decreases_to!(*entries => entries[i as int]));
                        assert(decreases_to!(entries[i as int] => entries[i as int].1));
                        assert(decreases_to!(*v => entries[i as int].1));
                        project(fragments, variables, group, &entries[i].1)
                    },
                    None => {
                        proof {
                            lemma_first_index(es, name@, 0, es.len() as int);
                        }
                        GqlValue::Null
                    },
                };
                let ghost before = out@;
                out.push((key, value));
                proof {
                    lemma_entries_model_prefix(out@, before, j as int);
                }
                j = j + 1;
            }
            GqlValue::Object(out)
        },
        GqlValue::List(items) => {
            let ghost ims = items_model(items@, items@.len() as int);
            proof {
                lemma_items_model_index(items@, items@.len() as int);
            }
            let mut out: Vec<GqlValue> = Vec::new();
            let mut k: usize = 0;
            while k < items.len()
                invariant
                    k <= items@.len(),
                    *v == GqlValue::List(*items),
                    ims == items_model(items@, items@.len() as int),
                    ims.len() == items@.len(),
                    forall|m: int| 0 <= m < items@.len() ==> #[trigger] ims[m] == items@[m].model(),
                    out@.len() == k,
                    items_model(out@, k as int) == projected_items(frags, vars, fs, ims, k as int),
                    frags == fragments@,
                    vars == variables@,
                    fs == derefs(fields@),
                decreases items.len() - k,
            {
                assert(decreases_to!(*v => v->List_0));
                assert(decreases_to!(*items => items[k as int]));
                assert(decreases_to!(*v => items[k as int]));
                let item = project(fragments, variables, fields, &items[k]);
                let ghost before = out@;
                out.push(item);
                proof {
                    lemma_items_model_prefix(out@, before, k as int);
                }
                k = k + 1;
            }
            GqlValue::List(out)
        },
        _ => v.clone(),
    }
}

/// The type without its outer non-null marker.
pub open spec fn nullable_part(t: GqlValueType) -> GqlValueType {
    match t {
        GqlValueType::NonNullType(inner) => *inner,
        _ => t,
    }
}

/// Whether a slot of this type must not be null.
pub open spec fn slot_non_null(t: Option<GqlValueType>) -> bool {
    match t {
        Some(GqlValueType::NonNullType(_)) => true,
        _ => false,
    }
}

/// The declared type of field `name` of the named type under `t`.
pub open spec fn child_type(
    defs: Seq<GqlTypeDefinition>,
    t: Option<GqlValueType>,
    name: Seq<char>,
) -> Option<GqlValueType> {
    match t {
        Some(ty) => match type_named(defs, ty.base_name()) {
            Some(d) => match field_named(d.spec_fields(), name) {
                Some(f) => Some(f.meta_type),
                None => None,
            },
            None => None,
        },
        None => None,
    }
}

/// The item type of a list type, if `t` is one.
pub open spec fn item_type(t: Option<GqlValueType>) -> Option<GqlValueType> {
    match t {
        Some(ty) => match nullable_part(ty) {
            GqlValueType::ListType(inner) => Some(*inner),
            _ => None,
        },
        None => None,
    }
}

/// The value of the entry named `name`, or null.
pub open spec fn entry_value(es: Seq<(Seq<char>, ValueModel)>, name: Seq<char>) -> ValueModel {
    let i = first_index(es, name, 0);
    if 0 <= i < es.len() {
        es[i].1
    } else {
        ValueModel::Null
    }
}

/// `r` is the resolved tree of value `v` in a slot of type `t` selected by
/// `fields`: a leaf or a value without selections stays a value; an object
/// becomes one field per response key of the merged selections, in their
/// order, each with the nullability that the schema declares for it and the
/// tree of the entry named by its first field (null where there is none); a
/// list becomes the trees of its items, with the item type's nullability.
pub open spec fn is_tree(
    defs: Seq<GqlTypeDefinition>,
    frags: Seq<FragmentDefinition>,
    vars: Seq<(String, GqlValue)>,
    t: Option<GqlValueType>,
    fields: Seq<Field>,
    v: ValueModel,
    r: Resolved,
) -> bool
    decreases r,
{
    let sub = sub_selections(fields);
    if sub.len() == 0 {
        r is Value && r->Value_0.model() == v
    } else {
        match v {
            ValueModel::Object(es) => {
                let groups = grouped(expand(frags, vars, sub, Set::empty()));
                match r {
                    Resolved::Object(rfs) => rfs@.len() == groups.len() && forall|i: int|
                        0 <= i < rfs@.len() ==> {
                            let g = groups[i];
                            let ct = child_type(defs, t, lookup_name(g));
                            &&& (#[trigger] rfs@[i]).key@ == g.0
                            &&& rfs@[i].non_null == slot_non_null(ct)
                            &&& is_tree(
                                defs,
                                frags,
                                vars,
                                ct,
                                g.1,
                                entry_value(es, lookup_name(g)),
                                rfs@[i].node,
                            )
                        },
                    _ => false,
                }
            },
            ValueModel::List(items) => match r {
                Resolved::List(nodes, nn) => {
                    &&& nn == slot_non_null(item_type(t))
                    &&& nodes@.len() == items.len()
                    &&& forall|i: int|
                        0 <= i < nodes@.len() ==> is_tree(
                            defs,
                            frags,
                            vars,
                            item_type(t),
                            fields,
                            items[i],
                            #[trigger] nodes@[i],
                        )
                },
                _ => false,
            },
            _ => r is Value && r->Value_0.model() == v,
        }
    }
}

/// The type a borrowed type refers to.
pub open spec fn opt_type(t: Option<&GqlValueType>) -> Option<GqlValueType> {
    match t {
        Some(x) => Some(*x),
        None => None,
    }
}

fn child_type_of<'s>(schema: &'s Schema, t: Option<&GqlValueType>, name: &str) -> (r: Option<
    &'s GqlValueType,
>)
    ensures
        opt_type(r) == child_type(schema.type_map@, opt_type(t), name@),
{
    match t {
        Some(ty) => {
            let n = ty.name();
            match schema.get_type(n.as_str()) {
                Some(d) => match d.get_field_by_name(name) {
                    Some(f) => Some(&f.meta_type),
                    None => None,
                },
                None => None,
            }
        },
        None => None,
    }
}

fn item_type_of<'s>(t: Option<&'s GqlValueType>) -> (r: Option<&'s GqlValueType>)
    ensures
        opt_type(r) == item_type(opt_type(t)),
{
    match t {
        Some(ty) => {
            let inner: &GqlValueType = match ty {
                GqlValueType::NonNullType(i) => i,
                other => other,
            };
            match inner {
                GqlValueType::ListType(i) => Some(i),
                _ => None,
            }
        },
        None => None,
    }
}

fn is_non_null_slot(t: Option<&GqlValueType>) -> (r: bool)
    ensures
        r == slot_non_null(opt_type(t)),
{
    match t {
        Some(ty) => ty.is_non_null(),
        None => false,
    }
}

/// The resolved tree of a value in a slot of type `t`, selected by a group of
/// fields, as `is_tree` describes; completing it propagates nulls at every
/// depth by the schema's nullability.
pub fn resolve_tree<'a, 's>(
    schema: &'s Schema,
    fragments: &'a Vec<FragmentDefinition>,
    variables: &Vec<(String, GqlValue)>,
    t: Option<&'s GqlValueType>,
    fields: &Vec<&'a Field>,
    v: &GqlValue,
) -> (r: Resolved)
    ensures
        is_tree(
            schema.type_map@,
            fragments@,
            variables@,
            opt_type(t),
            derefs(fields@),
            v.model(),
            r,
        ),
    decreases v,
{
    broadcast use vstd::std_specs::vec::group_vec_axioms;

    let work = group_selections(fields);
    if work.len() == 0 {
        return Resolved::Value(v.clone());
    }
    let ghost defs = schema.type_map@;
    let ghost frags = fragments@;
    let ghost vars = variables@;
    let ghost fs = derefs(fields@);
    match v {
        GqlValue::Object(entries) => {
            let groups = collect_items(fragments, variables, work);
            let ghost gv = groups_view(groups@);
            let ghost es = entries_model(entries@, entries@.len() as int);
            proof {
                lemma_entries_model_index(entries@, entries@.len() as int);
            }
            let mut out: Vec<ResolvedField> = Vec::new();
            let mut j: usize = 0;
            while j < groups.len()
                invariant
                    j <= groups@.len(),
                    gv == groups_view(groups@),
                    gv.len() == groups@.len(),
                    *v == GqlValue::Object(*entries),
                    es == entries_model(entries@, entries@.len() as int),
                    es.len() == entries@.len(),
                    forall|k: int|
                        0 <= k < entries@.len() ==> #[trigger] es[k] == (
                            entries@[k].0@,
                            entries@[k].1.model(),
                        ),
                    out@.len() == j,
                    forall|k: int|
                        0 <= k < j ==> {
                            let g = gv[k];
                            let ct = child_type(defs, opt_type(t), lookup_name(g));
                            &&& (#[trigger] out@[k]).key@ == g.0
                            &&& out@[k].non_null == slot_non_null(ct)
                            &&& is_tree(
                                defs,
                                frags,
                                vars,
                                ct,
                                g.1,
                                entry_value(es, lookup_name(g)),
                                out@[k].node,
                            )
                        },
                    defs == schema.type_map@,
                    frags == fragments@,
                    vars == variables@,
                decreases groups.len() - j,
            {
                let key = groups[j].0.clone();
                let group = &groups[j].1;
                let name = if group.len() > 0 {
                    group[0].name.clone()
                } else {
                    key.clone()
                };
                assert(gv[j as int] == (groups@[j as int].0@, derefs(groups@[j as int].1@)));
                assert(name@ == lookup_name(gv[j as int]));
                let ct = child_type_of(schema, t, name.as_str());
                let found = crate::value::find_entry(entries, &name);
                let node = match found {
                    Some(i) => {
                        proof {
                            lemma_first_index(es, name@, 0, i as int);
                        }
                        assert(decreases_to!(*v => v->Object_0));
                        assert(decreases_to!(*entries => entries[i as int]));
                        assert(decreases_to!(entries[i as int] => entries[i as int].1));
                        assert(decreases_to!(*v => entries[i as int].1));
                        resolve_tree(schema, fragments, variables, ct, group, &entries[i].1)
                    },
                    None => {
                        proof {
                            lemma_first_index(es, name@, 0, es.len() as int);
                        }
                        Resolved::Value(GqlValue::Null)
                    },
                };
                let non_null = is_non_null_slot(ct);
                out.push(ResolvedField { key, non_null, node });
                j = j + 1;
            }
            Resolved::Object(out)
        },
        GqlValue::List(items) => {
            let ghost ims = items_model(items@, items@.len() as int);
            proof {
                lemma_items_model_index(items@, items@.len() as int);
            }
            let it = item_type_of(t);
            let mut out: Vec<Resolved> = Vec::new();
            let mut k: usize = 0;
            while k < items.len()
                invariant
                    k <= items@.len(),
                    *v == GqlValue::List(*items),
                    ims == items_model(items@, items@.len() as int),
                    ims.len() == items@.len(),
                    forall|m: int| 0 <= m < items@.len() ==> #[trigger] ims[m] == items@[m].model(),
                    opt_type(it) == item_type(opt_type(t)),
                    out@.len() == k,
                    forall|m: int|
                        0 <= m < k ==> is_tree(
                            defs,
                            frags,
                            vars,
                            item_type(opt_type(t)),
                            fs,
                            ims[m],
                            #[trigger] out@[m],
                        ),
                    defs == schema.type_map@,
                    frags == fragments@,
                    vars == variables@,
                    fs == derefs(fields@),
                decreases items.len() - k,
            {
                assert(decreases_to!(*v => v->List_0));
                assert(decreases_to!(*items => items[k as int]));
                assert(decreases_to!(*v => items[k as int]));
                let node = resolve_tree(schema, fragments, variables, it, fields, &items[k]);
                out.push(node);
                k = k + 1;
            }
            Resolved::List(out, is_non_null_slot(it))
        },
        _ => Resolved::Value(v.clone()),
    }
}

} // verus!
