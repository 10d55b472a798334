use vstd::prelude::*;

use crate::ast::{
    Document, Field, FragmentDefinition, OperationDefinition, OperationType, SelectionSet,
    VariableDefinition,
};
use crate::collect::{collect_fields, collected, groups_view};
use crate::execution::{
    child_path, complete, completed, gql_errors_view, node_errors, GqlError, PathSegment,
    Resolved, ResolvedField,
};
use crate::schema::Schema;
use crate::text::{concat, same_text};
use crate::value::{GqlValue, ValueModel};

verus! {

/// An executable operation: its kind, its selection set, the document's
/// fragments and its variable definitions.
#[derive(Debug)]
pub struct Operation {
    pub operation_type: OperationType,
    pub name: Option<String>,
    pub selection_set: SelectionSet,
    pub fragments: Vec<FragmentDefinition>,
    pub variable_definitions: Vec<VariableDefinition>,
}

/// Whether an operation carries the name `name`.
pub open spec fn named(op: OperationDefinition, name: Seq<char>) -> bool {
    match op.name {
        Some(n) => n@ == name,
        None => false,
    }
}

/// Which operation of a document runs: the first one named `name`, else,
/// with no name asked for, the only one.
pub open spec fn chosen(ops: Seq<OperationDefinition>, name: Option<Seq<char>>) -> Option<int> {
    match name {
        Some(n) => if exists|i: int| 0 <= i < ops.len() && named(ops[i], n) {
            Some(
                choose|i: int|
                    0 <= i < ops.len() && named(ops[i], n) && forall|j: int|
                        0 <= j < i ==> !named(ops[j], n),
            )
        } else {
            None
        },
        None => if ops.len() == 1 {
            Some(0)
        } else {
            None
        },
    }
}

fn find_operation(ops: &Vec<OperationDefinition>, name: &str) -> (r: Option<usize>)
    ensures
        match r {
            Some(i) => i < ops@.len() && named(ops@[i as int], name@) && forall|j: int|
                0 <= j < i ==> !named(ops@[j], name@),
            None => forall|j: int| 0 <= j < ops@.len() ==> !named(ops@[j], name@),
        },
{
    let mut i: usize = 0;
    while i < ops.len()
        invariant
            i <= ops@.len(),
            forall|j: int| 0 <= j < i ==> !named(ops@[j], name@),
        decreases ops.len() - i,
    {
        match &ops[i].name {
            Some(n) => {
                if same_text(n.as_str(), name) {
                    return Some(i);
                }
            },
            None => {},
        }
        i = i + 1;
    }
    None
}

/// Picks the operation to run from a document (see `chosen`), with the
/// document's fragments. Fails when no operation has the name asked for, or
/// when no name is asked for and the document has not exactly one operation.
pub fn build_operation(document: Document, operation_name: Option<&str>) -> (r: Result<
    Operation,
    String,
>)
    ensures
        match chosen(document.operations@, ref_text(operation_name)) {
            Some(i) => r is Ok && ({
                let op = document.operations@[i];
                let o = r->Ok_0;
                &&& o.operation_type == op.operation_type
                &&& o.name == op.name
                &&& o.selection_set == op.selection_set
                &&& o.variable_definitions == op.variable_definitions
                &&& o.fragments == document.fragments
            }),
            None => r is Err,
        },
{
    let Document { operations, fragments } = document;
    let ghost ops = operations@;
    let index = match operation_name {
        Some(n) => match find_operation(&operations, n) {
            Some(i) => {
                proof {
                    let c = choose|c: int|
                        0 <= c < ops.len() && named(ops[c], n@) && forall|j: int|
                            0 <= j < c ==> !named(ops[j], n@);
                    assert(!(c < i)) by {
                        if c < i {
                            assert(!named(ops[c], n@));
                        }
                    };
                    assert(!(i < c)) by {
                        if i < c {
                            assert(!named(ops[i as int], n@));
                        }
                    };
                }
                i
            },
            None => {
                return Err(concat("Unknown operation named ", n));
            },
        },
        None => {
            if operations.len() == 1 {
                0
            } else if operations.len() == 0 {
                return Err("The document has no operation".to_string());
            } else {
                return Err("An operation name is required".to_string());
            }
        },
    };
    let mut operations = operations;
    let op = operations.remove(index);
    let OperationDefinition { operation_type, name, variable_definitions, selection_set, .. } = op;
    Ok(Operation { operation_type, name, selection_set, fragments, variable_definitions })
}

/// The characters of an optional borrowed string.
pub open spec fn ref_text(s: Option<&str>) -> Option<Seq<char>> {
    match s {
        Some(t) => Some(t@),
        None => None,
    }
}

/// The state of executing one node: shared references to the schema, the
/// operation and the variables, this node's response path, and the errors
/// this branch has recorded.
pub struct ExecutionContext<'a> {
    pub schema: &'a Schema,
    pub operation: &'a Operation,
    pub variables: &'a Vec<(String, GqlValue)>,
    pub current_path: Vec<PathSegment>,
    pub errors: Vec<GqlError>,
}

/// The context at the root of an operation: an empty path and no errors.
pub fn build_context<'a>(
    schema: &'a Schema,
    operation: &'a Operation,
    variables: &'a Vec<(String, GqlValue)>,
) -> (r: ExecutionContext<'a>)
    ensures
        r.schema == schema,
        r.operation == operation,
        r.variables == variables,
        r.current_path@.len() == 0,
        r.errors@.len() == 0,
{
    ExecutionContext { schema, operation, variables, current_path: Vec::new(), errors: Vec::new() }
}

impl<'a> ExecutionContext<'a> {
    /// The context of a child field: the same references, the path extended
    /// by `key`, and an error list of its own.
    pub fn fork(&self, key: &String) -> (r: ExecutionContext<'a>)
        ensures
            r.schema == self.schema,
            r.operation == self.operation,
            r.variables == self.variables,
            r.current_path@ == self.current_path@.push(PathSegment::Field(*key)),
            r.errors@.len() == 0,
    {
        ExecutionContext {
            schema: self.schema,
            operation: self.operation,
            variables: self.variables,
            current_path: child_path(&self.current_path, PathSegment::Field(key.clone())),
            errors: Vec::new(),
        }
    }

    /// Takes over the errors of a child context, after the ones already here.
    pub fn join(&mut self, child: ExecutionContext<'a>)
        ensures
            final(self).schema == old(self).schema,
            final(self).operation == old(self).operation,
            final(self).current_path@ == old(self).current_path@,
            final(self).errors@ == old(self).errors@ + child.errors@,
    {
        let mut errors = child.errors;
        self.errors.append(&mut errors);
    }
}

/// The fields of `selection_set` by response key, merged across fragments,
/// under the context's operation and variables.
pub fn collect_query_fields<'a>(ctx: &ExecutionContext<'a>, selection_set: &'a SelectionSet) -> (r:
    Vec<(String, Vec<&'a Field>)>)
    ensures
        groups_view(r@) == collected(
            ctx.operation.fragments@,
            ctx.variables@,
            *selection_set,
        ),
{
    collect_fields(&ctx.operation.fragments, ctx.variables, selection_set)
}

/// The response data of resolved root fields: the completed object, or null
/// where a non-null root field could not be filled. Errors are added to the
/// context's list with their paths.
pub fn complete_root(ctx: &mut ExecutionContext, root: Vec<ResolvedField>) -> (r: GqlValue)
    ensures
        final(ctx).current_path@ == old(ctx).current_path@,
        r.model() == match completed(Resolved::Object(root)) {
            Some(v) => v,
            None => ValueModel::Null,
        },
        gql_errors_view(final(ctx).errors@) == gql_errors_view(old(ctx).errors@) + node_errors(
            Resolved::Object(root),
            old(ctx).current_path@,
        ),
{
    match complete(Resolved::Object(root), &ctx.current_path, &mut ctx.errors) {
        Some(v) => v,
        None => GqlValue::Null,
    }
}

} // verus!
