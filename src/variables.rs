use vstd::prelude::*;

use crate::ast::{Value, VariableDefinition};
use crate::collect::{find_key, lookup};
use crate::schema::{find_type, is_gql_primitive_ty, type_known, GqlTypeDefinition, Schema};
use crate::text::concat;
use crate::value::{
    entries_model, insert_value, items_model, keys_unique, model_insert, object_model, GqlValue,
    ValueModel,
};

verus! {

/// The model of the first `n` items of a list literal.
pub open spec fn literal_items_model(items: Seq<Value>, n: int) -> Seq<ValueModel>
    decreases items, n,
{
    if n <= 0 || n > items.len() {
        Seq::empty()
    } else {
        literal_items_model(items, n - 1).push(literal_model(items[n - 1]))
    }
}

/// The model of the first `n` entries of an object literal.
pub open spec fn literal_entries_model(entries: Seq<(String, Value)>, n: int) -> Seq<
    (Seq<char>, ValueModel),
>
    decreases entries, n,
{
    if n <= 0 || n > entries.len() {
        Seq::empty()
    } else {
        literal_entries_model(entries, n - 1).push(
            (entries[n - 1].0@, literal_model(entries[n - 1].1)),
        )
    }
}

/// The runtime value that a literal stands for. A variable inside a default
/// literal has no value and stands for null.
pub open spec fn literal_model(v: Value) -> ValueModel
    decreases v, 0int,
{
    match v {
        Value::Variable(_) => ValueModel::Null,
        Value::Int(t) => ValueModel::Number(t@),
        Value::Float(t) => ValueModel::Number(t@),
        Value::String(s) => ValueModel::String(s@),
        Value::Boolean(b) => ValueModel::Boolean(b),
        Value::Null => ValueModel::Null,
        Value::Enum(e) => ValueModel::Enum(e@),
        Value::List(items) => ValueModel::List(literal_items_model(items@, items@.len() as int)),
        Value::Object(entries) => ValueModel::Object(
            literal_entries_model(entries@, entries@.len() as int),
        ),
    }
}

proof fn lemma_literal_items(out: Seq<GqlValue>, items: Seq<Value>, n: int)
    requires
        0 <= n <= out.len(),
        n <= items.len(),
        forall|j: int| 0 <= j < n ==> (#[trigger] out[j]).model() == literal_model(items[j]),
    ensures
        items_model(out, n) == literal_items_model(items, n),
    decreases n,
{
    if n > 0 {
        lemma_literal_items(out, items, n - 1);
    }
}

proof fn lemma_literal_entries(out: Seq<(String, GqlValue)>, entries: Seq<(String, Value)>, n: int)
    requires
        0 <= n <= out.len(),
        n <= entries.len(),
        forall|j: int|
            0 <= j < n ==> (#[trigger] out[j]).0@ == entries[j].0@ && out[j].1.model()
                == literal_model(entries[j].1),
    ensures
        entries_model(out, n) == literal_entries_model(entries, n),
    decreases n,
{
    if n > 0 {
        lemma_literal_entries(out, entries, n - 1);
    }
}

/// The runtime value of a literal, as `literal_model` describes.
pub fn value_from_ast(v: &Value) -> (r: GqlValue)
    ensures
        r.model() == literal_model(*v),
    decreases v,
{
    broadcast use vstd::std_specs::vec::group_vec_axioms;

    match v {
        Value::Variable(_) => GqlValue::Null,
        Value::Int(t) => GqlValue::Number(t.clone()),
        Value::Float(t) => GqlValue::Number(t.clone()),
        Value::String(s) => GqlValue::String(s.clone()),
        Value::Boolean(b) => GqlValue::Boolean(*b),
        Value::Null => GqlValue::Null,
        Value::Enum(e) => GqlValue::Enum(e.clone()),
        Value::List(items) => {
            let mut out: Vec<GqlValue> = Vec::new();
            let mut i: usize = 0;
            while i < items.len()
                invariant
                    i <= items.len(),
                    *v == Value::List(*items),
                    out@.len() == i,
                    forall|j: int|
                        0 <= j < i ==> (#[trigger] out@[j]).model() == literal_model(items@[j]),
                decreases items.len() - i,
            {
                assert(decreases_to!(*v => v->List_0));
                assert(decreases_to!(*items => items[i as int]));
                assert(decreases_to!(*v => items[i as int]));
                out.push(value_from_ast(&items[i]));
                i = i + 1;
            }
            proof {
                lemma_literal_items(out@, items@, i as int);
            }
            GqlValue::List(out)
        },
        Value::Object(entries) => {
            let mut out: Vec<(String, GqlValue)> = Vec::new();
            let mut i: usize = 0;
            while i < entries.len()
                invariant
                    i <= entries.len(),
                    *v == Value::Object(*entries),
                    out@.len() == i,
                    forall|j: int|
                        0 <= j < i ==> (#[trigger] out@[j]).0@ == entries@[j].0@
                            && out@[j].1.model() == literal_model(entries@[j].1),
                decreases entries.len() - i,
            {
                assert(decreases_to!(*v => v->Object_0));
                assert(decreases_to!(*entries => entries[i as int]));
                assert(decreases_to!(entries[i as int] => entries[i as int].1));
                assert(decreases_to!(*v => entries[i as int].1));
                let item = value_from_ast(&entries[i].1);
                out.push((entries[i].0.clone(), item));
                i = i + 1;
            }
            proof {
                lemma_literal_entries(out@, entries@, i as int);
            }
            GqlValue::Object(out)
        },
    }
}

/// The outcome of coercing the variable definitions, one after another:
/// the variables bound so far, or the name of the first non-null variable
/// that has neither a supplied value nor a default.
///
/// A variable whose type names an unknown type is passed over. A supplied
/// value is taken as it is; else a default is converted from its literal;
/// else a non-null variable is an error and a nullable one stays unbound.
pub open spec fn coerced(
    defs: Seq<GqlTypeDefinition>,
    vars: Seq<VariableDefinition>,
    input: Seq<(String, GqlValue)>,
) -> Result<Seq<(Seq<char>, ValueModel)>, Seq<char>>
    decreases vars.len(),
{
    if vars.len() == 0 {
        Ok(Seq::empty())
    } else {
        match coerced(defs, vars.drop_last(), input) {
            Err(n) => Err(n),
            Ok(acc) => {
                let d = vars.last();
                if !type_known(defs, d.var_type.base_name()) {
                    Ok(acc)
                } else {
                    match lookup(input, d.name@) {
                        Some(v) => Ok(model_insert(acc, d.name@, v.model())),
                        None => match d.default_value {
                            Some(lit) => Ok(model_insert(acc, d.name@, literal_model(lit))),
                            None => if d.var_type is NonNullType {
                                Err(d.name@)
                            } else {
                                Ok(acc)
                            },
                        },
                    }
                }
            },
        }
    }
}

/// The message of a missing non-null variable.
pub open spec fn must_not_be_null(name: Seq<char>) -> Seq<char> {
    name + " must not be null"@
}

/// Binds the declared variables to values: the supplied ones, else the
/// defaults, all or nothing (see `coerced`). A non-null variable with neither
/// fails the whole pass with "`name` must not be null".
pub fn get_variables(
    schema: &Schema,
    variable_definitions: &Vec<VariableDefinition>,
    input_values: &Vec<(String, GqlValue)>,
) -> (r: Result<Vec<(String, GqlValue)>, String>)
    ensures
        match coerced(schema.type_map@, variable_definitions@, input_values@) {
            Ok(m) => r is Ok && object_model(r->Ok_0@) == m && keys_unique(r->Ok_0@),
            Err(n) => r is Err && r->Err_0@ == must_not_be_null(n),
        },
{
    let ghost defs = schema.type_map@;
    let ghost vars = variable_definitions@;
    let mut out: Vec<(String, GqlValue)> = Vec::new();
    let mut i: usize = 0;
    while i < variable_definitions.len()
        invariant
            i <= vars.len(),
            defs == schema.type_map@,
            vars == variable_definitions@,
            coerced(defs, vars.subrange(0, i as int), input_values@) == Ok::<
                Seq<(Seq<char>, ValueModel)>,
                Seq<char>,
            >(object_model(out@)),
            keys_unique(out@),
        decreases vars.len() - i,
    {
        let d = &variable_definitions[i];
        assert(vars.subrange(0, i + 1).drop_last() =~= vars.subrange(0, i as int));
        assert(vars.subrange(0, i + 1).last() == *d);
        let base = d.var_type.name();
        let known = is_gql_primitive_ty(base.as_str()) || find_type(
            &schema.type_map,
            base.as_str(),
        ).is_some();
        if known {
            match find_key(input_values, d.name.as_str()) {
                Some(v) => {
                    insert_value(&mut out, d.name.clone(), v.clone());
                },
                None => match &d.default_value {
                    Some(lit) => {
                        insert_value(&mut out, d.name.clone(), value_from_ast(lit));
                    },
                    None => {
                        if d.var_type.is_non_null() {
                            proof {
                                lemma_coerced_err_stays(defs, vars, input_values@, i as int + 1);
                            }
                            assert(vars.subrange(0, vars.len() as int) =~= vars);
                            return Err(concat(d.name.as_str(), " must not be null"));
                        }
                    },
                },
            }
        }
        i = i + 1;
    }
    assert(vars.subrange(0, i as int) =~= vars);
    Ok(out)
}

/// Once the coercion of a prefix fails, the coercion of every longer prefix
/// fails with the same name.
pub proof fn lemma_coerced_err_stays(
    defs: Seq<GqlTypeDefinition>,
    vars: Seq<VariableDefinition>,
    input: Seq<(String, GqlValue)>,
    k: int,
)
    requires
        0 <= k <= vars.len(),
        coerced(defs, vars.subrange(0, k), input) is Err,
    ensures
        coerced(defs, vars, input) == coerced(defs, vars.subrange(0, k), input),
    decreases vars.len() - k,
{
    if k < vars.len() {
        assert(vars.subrange(0, k + 1).drop_last() =~= vars.subrange(0, k));
        lemma_coerced_err_stays(defs, vars, input, k + 1);
    } else {
        assert(vars.subrange(0, k) =~= vars);
    }
}

} // verus!
