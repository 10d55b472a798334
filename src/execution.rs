use vstd::prelude::*;

use crate::value::{GqlValue, ValueModel};

verus! {

/// One step of a response path: an object key or a list index.
#[derive(Debug)]
pub enum PathSegment {
    Field(String),
    Index(usize),
}

impl Clone for PathSegment {
    fn clone(&self) -> (r: Self)
        ensures
            r == *self,
    {
        match self {
            PathSegment::Field(k) => PathSegment::Field(k.clone()),
            PathSegment::Index(i) => PathSegment::Index(*i),
        }
    }
}

/// A field error, stamped with the response path of the field.
#[derive(Debug)]
pub struct GqlError {
    pub message: String,
    pub path: Vec<PathSegment>,
}

/// Message and path of an error.
pub open spec fn gql_error_view(e: GqlError) -> (Seq<char>, Seq<PathSegment>) {
    (e.message@, e.path@)
}

/// Messages and paths of a list of errors.
pub open spec fn gql_errors_view(es: Seq<GqlError>) -> Seq<(Seq<char>, Seq<PathSegment>)> {
    es.map_values(|e: GqlError| gql_error_view(e))
}

/// What resolving a node of a query gave, before nulls are propagated.
#[derive(Debug)]
pub enum Resolved {
    /// A leaf value, which may be null.
    Value(GqlValue),
    /// The resolver failed with this message.
    Failed(String),
    /// The fields of a selection set, in the query's order.
    Object(Vec<ResolvedField>),
    /// The items of a list; `item_non_null` when the item type is non-null.
    List(Vec<Resolved>, bool),
}

/// One response key of a selection set and what resolving it gave.
#[derive(Debug)]
pub struct ResolvedField {
    pub key: String,
    pub non_null: bool,
    pub node: Resolved,
}

/// The value that fills a slot: a null in a non-null slot, or a node that
/// could not be completed, fills a nullable slot with null and leaves a
/// non-null slot unfilled (`None`), which nulls the enclosing value.
pub open spec fn slot(v: Option<ValueModel>, non_null: bool) -> Option<ValueModel> {
    match v {
        Some(ValueModel::Null) => if non_null {
            None
        } else {
            Some(ValueModel::Null)
        },
        Some(m) => Some(m),
        None => if non_null {
            None
        } else {
            Some(ValueModel::Null)
        },
    }
}

/// The completed value of a node, or `None` where the node failed or a
/// non-null slot inside it stayed unfilled.
pub open spec fn completed(node: Resolved) -> Option<ValueModel>
    decreases node, 0int,
{
    match node {
        Resolved::Value(v) => Some(v.model()),
        Resolved::Failed(_) => None,
        Resolved::Object(fields) => match completed_fields(fields@, fields@.len() as int) {
            Some(es) => Some(ValueModel::Object(es)),
            None => None,
        },
        Resolved::List(items, non_null) => match completed_items(
            items@,
            items@.len() as int,
            non_null,
        ) {
            Some(vs) => Some(ValueModel::List(vs)),
            None => None,
        },
    }
}

/// The entries of the first `n` fields, if every slot is filled.
pub open spec fn completed_fields(fields: Seq<ResolvedField>, n: int) -> Option<
    Seq<(Seq<char>, ValueModel)>,
>
    decreases fields, n,
{
    if n <= 0 || n > fields.len() {
        Some(Seq::empty())
    } else {
        match (
            completed_fields(fields, n - 1),
            slot(completed(fields[n - 1].node), fields[n - 1].non_null),
        ) {
            (Some(es), Some(v)) => Some(es.push((fields[n - 1].key@, v))),
            _ => None,
        }
    }
}

/// The first `n` items, if every slot is filled.
pub open spec fn completed_items(items: Seq<Resolved>, n: int, non_null: bool) -> Option<
    Seq<ValueModel>,
>
    decreases items, n,
{
    if n <= 0 || n > items.len() {
        Some(Seq::empty())
    } else {
        match (completed_items(items, n - 1, non_null), slot(completed(items[n - 1]), non_null)) {
            (Some(vs), Some(v)) => Some(vs.push(v)),
            _ => None,
        }
    }
}

/// The message for a null in a non-null slot.
pub open spec fn null_message() -> Seq<char> {
    "null value for a non-null field"@
}

/// The message recorded where a propagated null stops.
pub open spec fn propagated_message() -> Seq<char> {
    "a non-null field below failed, so this value is null"@
}

/// The errors that filling one slot at `path` adds beyond those inside the
/// node: a null in a non-null slot is an error at the slot; a nullable slot
/// that is nulled because a non-null slot below it stayed unfilled gets a
/// new error at its own path.
pub open spec fn slot_errors(node: Resolved, non_null: bool, path: Seq<PathSegment>) -> Seq<
    (Seq<char>, Seq<PathSegment>),
> {
    if non_null && completed(node) == Some(ValueModel::Null) {
        seq![(null_message(), path)]
    } else if !non_null && completed(node) is None && !(node is Failed) {
        seq![(propagated_message(), path)]
    } else {
        Seq::empty()
    }
}

/// The errors of completing a node at `path`, in the query's order.
pub open spec fn node_errors(node: Resolved, path: Seq<PathSegment>) -> Seq<
    (Seq<char>, Seq<PathSegment>),
>
    decreases node, 0int,
{
    match node {
        Resolved::Value(_) => Seq::empty(),
        Resolved::Failed(m) => seq![(m@, path)],
        Resolved::Object(fields) => fields_errors(fields@, fields@.len() as int, path),
        Resolved::List(items, non_null) => items_errors(items@, items@.len() as int, non_null, path),
    }
}

/// The errors of the first `n` fields, under `path`.
pub open spec fn fields_errors(fields: Seq<ResolvedField>, n: int, path: Seq<PathSegment>) -> Seq<
    (Seq<char>, Seq<PathSegment>),
>
    decreases fields, n,
{
    if n <= 0 || n > fields.len() {
        Seq::empty()
    } else {
        let f = fields[n - 1];
        let p = path.push(PathSegment::Field(f.key));
        fields_errors(fields, n - 1, path) + node_errors(f.node, p) + slot_errors(
            f.node,
            f.non_null,
            p,
        )
    }
}

/// The errors of the first `n` items, under `path`.
pub open spec fn items_errors(
    items: Seq<Resolved>,
    n: int,
    non_null: bool,
    path: Seq<PathSegment>,
) -> Seq<(Seq<char>, Seq<PathSegment>)>
    decreases items, n,
{
    if n <= 0 || n > items.len() {
        Seq::empty()
    } else {
        let p = path.push(PathSegment::Index((n - 1) as usize));
        items_errors(items, n - 1, non_null, path) + node_errors(items[n - 1], p) + slot_errors(
            items[n - 1],
            non_null,
            p,
        )
    }
}

/// `path` extended by one segment.
pub fn child_path(path: &Vec<PathSegment>, seg: PathSegment) -> (r: Vec<PathSegment>)
    ensures
        r@ == path@.push(seg),
{
    let mut r: Vec<PathSegment> = Vec::new();
    let mut i: usize = 0;
    while i < path.len()
        invariant
            i <= path@.len(),
            r@ == path@.subrange(0, i as int),
        decreases path.len() - i,
    {
        r.push(path[i].clone());
        i = i + 1;
        assert(r@ =~= path@.subrange(0, i as int));
    }
    assert(path@.subrange(0, i as int) =~= path@);
    r.push(seg);
    r
}

fn record(errors: &mut Vec<GqlError>, message: String, path: Vec<PathSegment>)
    ensures
        gql_errors_view(final(errors)@) == gql_errors_view(old(errors)@).push((message@, path@)),
{
    let ghost before = errors@;
    let e = GqlError { message, path };
    errors.push(e);
    assert(gql_errors_view(errors@) =~= gql_errors_view(before).push(gql_error_view(e)));
}

/// Fills a slot with the completed node, recording the slot's own error.
fn fill_slot(
    node: Resolved,
    non_null: bool,
    path: Vec<PathSegment>,
    errors: &mut Vec<GqlError>,
) -> (r: Option<GqlValue>)
    ensures
        match r {
            Some(v) => slot(completed(node), non_null) == Some(v.model()),
            None => slot(completed(node), non_null) is None,
        },
        gql_errors_view(final(errors)@) == gql_errors_view(old(errors)@) + node_errors(
            node,
            path@,
        ) + slot_errors(node, non_null, path@),
    decreases node, 1int,
{
    let failed = match &node {
        Resolved::Failed(_) => true,
        _ => false,
    };
    let done = complete(node, &path, errors);
    let ghost after = gql_errors_view(errors@);
    match done {
        Some(GqlValue::Null) => {
            if non_null {
                record(errors, null_text(), path);
                None
            } else {
                assert(gql_errors_view(errors@) =~= after + Seq::empty());
                Some(GqlValue::Null)
            }
        },
        Some(v) => {
            assert(gql_errors_view(errors@) =~= after + Seq::empty());
            Some(v)
        },
        None => {
            if non_null {
                assert(gql_errors_view(errors@) =~= after + Seq::empty());
                None
            } else {
                if !failed {
                    record(errors, propagated_text(), path);
                } else {
                    assert(gql_errors_view(errors@) =~= after + Seq::empty());
                }
                Some(GqlValue::Null)
            }
        },
    }
}

fn null_text() -> (r: String)
    ensures
        r@ == null_message(),
{
    "null value for a non-null field".to_string()
}

fn propagated_text() -> (r: String)
    ensures
        r@ == propagated_message(),
{
    "a non-null field below failed, so this value is null".to_string()
}

/// Completes a resolved node at `path`: nulls are propagated to the nearest
/// nullable slot, and every error is recorded with its path, in the query's
/// order. Object entries keep the order of the fields.
pub fn complete(node: Resolved, path: &Vec<PathSegment>, errors: &mut Vec<GqlError>) -> (r:
    Option<GqlValue>)
    ensures
        match r {
            Some(v) => completed(node) == Some(v.model()),
            None => completed(node) is None,
        },
        gql_errors_view(final(errors)@) == gql_errors_view(old(errors)@) + node_errors(
            node,
            path@,
        ),
    decreases node, 0int,
{
    broadcast use vstd::std_specs::vec::group_vec_axioms;

    let ghost n0 = node;
    match node {
        Resolved::Value(v) => {
            assert(gql_errors_view(errors@) =~= gql_errors_view(errors@) + Seq::empty());
            Some(v)
        },
        Resolved::Failed(m) => {
            record(errors, m, path.clone());
            None
        },
        Resolved::Object(fields) => {
            let ghost all = fields@;
            let n: usize = fields.len();
            let mut rest = fields;
            let mut out: Vec<(String, GqlValue)> = Vec::new();
            let mut ok = true;
            let ghost base = gql_errors_view(errors@);
            let mut k: usize = 0;
            while rest.len() > 0
                invariant
                    n == all.len(),
                    k + rest@.len() == n,
                    rest@ == all.subrange(k as int, n as int),
                    n0 == Resolved::Object(fields),
                    n0 == node,
                    all == n0->Object_0@,
                    gql_errors_view(errors@) == base + fields_errors(all, k as int, path@),
                    ok ==> completed_fields(all, k as int) == Some(
                        crate::value::entries_model(out@, out@.len() as int),
                    ),
                    !ok ==> completed_fields(all, k as int) is None,
                decreases rest.len(),
            {
                let f = rest.remove(0);
                assert(f == all[k as int]);
                assert(decreases_to!(n0 => n0->Object_0));
                assert(decreases_to!(n0->Object_0 => n0->Object_0[k as int]));
                assert(decreases_to!(all[k as int] => all[k as int].node));
                assert(decreases_to!(n0 => all[k as int].node));
                let ResolvedField { key, non_null, node: child } = f;
                assert(child == all[k as int].node);
                assert(decreases_to!(n0, 0int => child, 1int));
                let p = child_path(path, PathSegment::Field(key.clone()));
                let v = fill_slot(child, non_null, p, errors);
                match v {
                    Some(v) => {
                        if ok {
                            let ghost before = out@;
                            out.push((key, v));
                            proof {
                                crate::value::lemma_entries_model_prefix(
                                    out@,
                                    before,
                                    before.len() as int,
                                );
                            }
                        }
                    },
                    None => {
                        ok = false;
                    },
                }
                k = k + 1;
                assert(rest@ =~= all.subrange(k as int, n as int));
            }
            if ok {
                Some(GqlValue::Object(out))
            } else {
                None
            }
        },
        Resolved::List(items, non_null) => {
            let ghost all = items@;
            let n: usize = items.len();
            let mut rest = items;
            let mut out: Vec<GqlValue> = Vec::new();
            let mut ok = true;
            let ghost base = gql_errors_view(errors@);
            let mut k: usize = 0;
            while rest.len() > 0
                invariant
                    n == all.len(),
                    k + rest@.len() == n,
                    rest@ == all.subrange(k as int, n as int),
                    n0 == Resolved::List(items, non_null),
                    n0 == node,
                    all == n0->List_0@,
                    gql_errors_view(errors@) == base + items_errors(all, k as int, non_null, path@),
                    ok ==> completed_items(all, k as int, non_null) == Some(
                        crate::value::items_model(out@, out@.len() as int),
                    ),
                    !ok ==> completed_items(all, k as int, non_null) is None,
                decreases rest.len(),
            {
                let child = rest.remove(0);
                assert(child == all[k as int]);
                assert(decreases_to!(n0 => n0->List_0));
                assert(decreases_to!(n0->List_0 => n0->List_0[k as int]));
                assert(decreases_to!(n0 => all[k as int]));
                assert(decreases_to!(n0, 0int => child, 1int));
                let p = child_path(path, PathSegment::Index(k));
                let v = fill_slot(child, non_null, p, errors);
                match v {
                    Some(v) => {
                        if ok {
                            let ghost before = out@;
                            out.push(v);
                            proof {
                                crate::value::lemma_items_model_prefix(
                                    out@,
                                    before,
                                    before.len() as int,
                                );
                            }
                        }
                    },
                    None => {
                        ok = false;
                    },
                }
                k = k + 1;
                assert(rest@ =~= all.subrange(k as int, n as int));
            }
            if ok {
                Some(GqlValue::List(out))
            } else {
                None
            }
        },
    }
}

} // verus!
