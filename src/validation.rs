use vstd::prelude::*;

use crate::ast::{
    Document, Field, FragmentDefinition, InlineFragment, OperationDefinition, OperationType, Pos,
    Selection,
};
use crate::schema::{
    field_named, is_builtin_scalar, is_gql_primitive_ty, type_named, GqlTypeDefinition, Schema,
};
use crate::text::concat;

verus! {

/// A rule violation, with the places in the query it concerns.
#[derive(Debug)]
pub struct ValidationError {
    pub message: String,
    pub locations: Vec<Pos>,
}

/// Message and locations of an error.
pub open spec fn error_view(e: ValidationError) -> (Seq<char>, Seq<Pos>) {
    (e.message@, e.locations@)
}

/// Messages and locations of a list of errors.
pub open spec fn errors_view(es: Seq<ValidationError>) -> Seq<(Seq<char>, Seq<Pos>)> {
    es.map_values(|e: ValidationError| error_view(e))
}

/// The state of one validation pass: the schema, the stack of type scopes
/// (`None` where a scope's type is not known), and the errors so far.
pub struct ValidationContext<'a> {
    pub schema: &'a Schema,
    pub type_stack: Vec<Option<String>>,
    pub errors: Vec<ValidationError>,
}

/// The name in a scope entry.
pub open spec fn scope_name(e: Option<String>) -> Option<Seq<char>> {
    match e {
        Some(s) => Some(s@),
        None => None,
    }
}

/// The name a borrowed scope entry holds.
pub open spec fn ref_name(e: Option<&String>) -> Option<Seq<char>> {
    match e {
        Some(s) => Some(s@),
        None => None,
    }
}

impl<'a> ValidationContext<'a> {
    /// The type of the innermost scope.
    pub open spec fn spec_current(&self) -> Option<Seq<char>> {
        if self.type_stack@.len() == 0 {
            None
        } else {
            scope_name(self.type_stack@.last())
        }
    }

    /// The type of the scope around the innermost one.
    pub open spec fn spec_parent(&self) -> Option<Seq<char>> {
        if self.type_stack@.len() < 2 {
            None
        } else {
            scope_name(self.type_stack@[self.type_stack@.len() - 2])
        }
    }

    /// A context with no scopes and no errors.
    pub fn new(schema: &'a Schema) -> (r: Self)
        ensures
            r.schema == schema,
            r.type_stack@.len() == 0,
            r.errors@.len() == 0,
    {
        ValidationContext { schema, type_stack: Vec::new(), errors: Vec::new() }
    }

    /// The type of the innermost scope.
    pub fn current_type(&self) -> (r: Option<&String>)
        ensures
            ref_name(r) == self.spec_current(),
    {
        let n = self.type_stack.len();
        if n == 0 {
            None
        } else {
            match &self.type_stack[n - 1] {
                Some(t) => Some(t),
                None => None,
            }
        }
    }

    /// The type of the scope around the innermost one.
    pub fn parent_type(&self) -> (r: Option<&String>)
        ensures
            ref_name(r) == self.spec_parent(),
    {
        let n = self.type_stack.len();
        if n < 2 {
            None
        } else {
            match &self.type_stack[n - 2] {
                Some(t) => Some(t),
                None => None,
            }
        }
    }

    /// Records an error.
    pub fn add_error(&mut self, message: String, locations: Vec<Pos>)
        ensures
            final(self).schema == old(self).schema,
            final(self).type_stack@ == old(self).type_stack@,
            errors_view(final(self).errors@) == errors_view(old(self).errors@).push(
                (message@, locations@),
            ),
    {
        let ghost before = self.errors@;
        let e = ValidationError { message, locations };
        self.errors.push(e);
        assert(errors_view(self.errors@) =~= errors_view(before).push(error_view(e)));
    }

    /// Opens a scope of type `t`.
    pub fn push_type(&mut self, t: Option<String>)
        ensures
            final(self).schema == old(self).schema,
            final(self).type_stack@ == old(self).type_stack@.push(t),
            final(self).errors@ == old(self).errors@,
    {
        self.type_stack.push(t);
    }

    /// Closes the innermost scope.
    pub fn pop_type(&mut self)
        requires
            old(self).type_stack@.len() > 0,
        ensures
            final(self).schema == old(self).schema,
            final(self).type_stack@ == old(self).type_stack@.drop_last(),
            final(self).errors@ == old(self).errors@,
    {
        self.type_stack.pop();
    }
}

/// Whether values of type `t` are leaves (`Some(true)`), composite
/// (`Some(false)`), or neither or unknown (`None`).
pub open spec fn leaf_status(defs: Seq<GqlTypeDefinition>, t: Seq<char>) -> Option<bool> {
    match type_named(defs, t) {
        Some(d) => if d is Scalar || d is Enum {
            Some(true)
        } else if d is Object || d is Interface || d is Union {
            Some(false)
        } else {
            None
        },
        None => if is_builtin_scalar(t) {
            Some(true)
        } else {
            None
        },
    }
}

fn leaf_status_of(schema: &Schema, t: &str) -> (r: Option<bool>)
    ensures
        r == leaf_status(schema.type_map@, t@),
{
    match schema.get_type(t) {
        Some(d) => if d.is_leaf_type() {
            Some(true)
        } else if d.is_composite_type() {
            Some(false)
        } else {
            None
        },
        None => if is_gql_primitive_ty(t) {
            Some(true)
        } else {
            None
        },
    }
}

/// The declared type of field `name` of type `parent`, where both are known.
pub open spec fn field_type(
    defs: Seq<GqlTypeDefinition>,
    parent: Option<Seq<char>>,
    name: Seq<char>,
) -> Option<Seq<char>> {
    match parent {
        Some(p) => match type_named(defs, p) {
            Some(pd) => match field_named(pd.spec_fields(), name) {
                Some(fd) => Some(fd.meta_type.base_name()),
                None => None,
            },
            None => None,
        },
        None => None,
    }
}

fn field_type_of(schema: &Schema, parent: Option<&String>, name: &str) -> (r: Option<String>)
    ensures
        scope_name(r) == field_type(schema.type_map@, ref_name(parent), name@),
{
    match parent {
        Some(p) => match schema.get_type(p.as_str()) {
            Some(pd) => match pd.get_field_by_name(name) {
                Some(fd) => Some(fd.meta_type.name()),
                None => None,
            },
            None => None,
        },
        None => None,
    }
}

/// The message for a leaf-typed field with selections.
pub open spec fn leaf_message(field: Seq<char>, t: Seq<char>) -> Seq<char> {
    "Field "@ + field + " must not have a selection items because type "@ + t
        + " has no subfields"@
}

/// The message for a composite-typed field without selections.
pub open spec fn composite_message(field: Seq<char>) -> Seq<char> {
    "Field "@ + field + " must have selection items"@
}

/// The message for a fragment conditioned on a type that is not composite.
pub open spec fn fragment_message(name: Seq<char>) -> Seq<char> {
    "Fragment "@ + name + " cannot condition non composite type"@
}

/// The errors of the leaf rule at a field whose enclosing type is `parent`:
/// a field of leaf type must have no selections, and a field of composite
/// type must have some.
pub open spec fn scalar_leafs_errors(
    defs: Seq<GqlTypeDefinition>,
    parent: Option<Seq<char>>,
    f: Field,
) -> Seq<(Seq<char>, Seq<Pos>)> {
    match field_type(defs, parent, f.name@) {
        Some(t) => match leaf_status(defs, t) {
            Some(true) => if f.selection_set.items@.len() > 0 {
                seq![(leaf_message(f.name@, t), seq![f.position])]
            } else {
                Seq::empty()
            },
            Some(false) => if f.selection_set.items@.len() == 0 {
                seq![(composite_message(f.name@), seq![f.position])]
            } else {
                Seq::empty()
            },
            None => Seq::empty(),
        },
        None => Seq::empty(),
    }
}

/// The errors of the fragment rule: a fragment whose type condition is a
/// known type that is not composite.
pub open spec fn fragment_errors(
    defs: Seq<GqlTypeDefinition>,
    condition: Option<Seq<char>>,
    label: Seq<char>,
    position: Pos,
) -> Seq<(Seq<char>, Seq<Pos>)> {
    match condition {
        Some(t) => match type_named(defs, t) {
            Some(d) => if d is Object || d is Interface || d is Union {
                Seq::empty()
            } else {
                seq![(fragment_message(label), seq![position])]
            },
            None => Seq::empty(),
        },
        None => Seq::empty(),
    }
}

/// The type scope of an inline fragment: its condition, else the enclosing type.
pub open spec fn inline_scope(parent: Option<Seq<char>>, inl: InlineFragment) -> Option<Seq<char>> {
    match inl.type_condition {
        Some(t) => Some(t@),
        None => parent,
    }
}

/// The errors that one selection and everything inside it give.
pub open spec fn selection_errors(
    defs: Seq<GqlTypeDefinition>,
    parent: Option<Seq<char>>,
    s: Selection,
) -> Seq<(Seq<char>, Seq<Pos>)>
    decreases s,
{
    match s {
        Selection::Field(f) => scalar_leafs_errors(defs, parent, f) + items_errors(
            defs,
            field_type(defs, parent, f.name@),
            f.selection_set.items@,
        ),
        Selection::InlineFragment(inl) => {
            let scope = inline_scope(parent, inl);
            let label = match scope {
                Some(t) => t,
                None => Seq::empty(),
            };
            fragment_errors(defs, scope, label, inl.position) + items_errors(
                defs,
                scope,
                inl.selection_set.items@,
            )
        },
        Selection::FragmentSpread(_) => Seq::empty(),
    }
}

/// The errors of a sequence of selections, in order.
pub open spec fn items_errors(
    defs: Seq<GqlTypeDefinition>,
    parent: Option<Seq<char>>,
    items: Seq<Selection>,
) -> Seq<(Seq<char>, Seq<Pos>)>
    decreases items,
{
    if items.len() == 0 {
        Seq::empty()
    } else {
        items_errors(defs, parent, items.subrange(0, items.len() - 1)) + selection_errors(
            defs,
            parent,
            items[items.len() - 1],
        )
    }
}

/// Checks that fields of leaf type have no selections and fields of
/// composite type have some.
pub struct ScalarLeafs;

/// Checks that fragments are conditioned on composite types.
pub struct FragmentsOnCompositeTypes;

impl ScalarLeafs {
    /// Checks `field`, whose type scope is innermost in `ctx`.
    pub fn enter_field(&mut self, ctx: &mut ValidationContext, field: &Field)
        ensures
            final(ctx).schema == old(ctx).schema,
            final(ctx).type_stack@ == old(ctx).type_stack@,
            errors_view(final(ctx).errors@) == errors_view(old(ctx).errors@) + scalar_leafs_errors(
                old(ctx).schema.type_map@,
                old(ctx).spec_parent(),
                *field,
            ),
    {
        let ghost before = errors_view(ctx.errors@);
        let schema = ctx.schema;
        let t = field_type_of(schema, ctx.parent_type(), field.name.as_str());
        match t {
            Some(t) => match leaf_status_of(schema, t.as_str()) {
                Some(true) => {
                    if field.selection_set.items.len() > 0 {
                        let m = concat("Field ", field.name.as_str());
                        let m = concat(m.as_str(), " must not have a selection items because type ");
                        let m = concat(m.as_str(), t.as_str());
                        let m = concat(m.as_str(), " has no subfields");
                        let locs = vec![field.position];
                        assert(locs@ =~= seq![field.position]);
                        ctx.add_error(m, locs);
                        assert(m@ =~= leaf_message(field.name@, t@));
                    }
                },
                Some(false) => {
                    if field.selection_set.items.len() == 0 {
                        let m = concat("Field ", field.name.as_str());
                        let m = concat(m.as_str(), " must have selection items");
                        let locs = vec![field.position];
                        assert(locs@ =~= seq![field.position]);
                        ctx.add_error(m, locs);
                        assert(m@ =~= composite_message(field.name@));
                    }
                },
                None => {},
            },
            None => {},
        }
        assert(errors_view(ctx.errors@) =~= before + scalar_leafs_errors(
            schema.type_map@,
            old(ctx).spec_parent(),
            *field,
        ));
    }
}

fn check_condition(ctx: &mut ValidationContext, label: &str, position: Pos)
    ensures
        final(ctx).schema == old(ctx).schema,
        final(ctx).type_stack@ == old(ctx).type_stack@,
        errors_view(final(ctx).errors@) == errors_view(old(ctx).errors@) + fragment_errors(
            old(ctx).schema.type_map@,
            old(ctx).spec_current(),
            label@,
            position,
        ),
{
    let ghost before = errors_view(ctx.errors@);
    let schema = ctx.schema;
    match ctx.current_type() {
        Some(t) => match schema.get_type(t.as_str()) {
            Some(d) => {
                if !d.is_composite_type() {
                    let m = concat("Fragment ", label);
                    let m = concat(m.as_str(), " cannot condition non composite type");
                    let locs = vec![position];
                    assert(locs@ =~= seq![position]);
                    ctx.add_error(m, locs);
                    assert(m@ =~= fragment_message(label@));
                }
            },
            None => {},
        },
        None => {},
    }
    assert(errors_view(ctx.errors@) =~= before + fragment_errors(
        schema.type_map@,
        old(ctx).spec_current(),
        label@,
        position,
    ));
}

impl FragmentsOnCompositeTypes {
    /// Checks a fragment definition, whose type condition is the innermost
    /// scope of `ctx`.
    pub fn enter_fragment_definition(
        &mut self,
        ctx: &mut ValidationContext,
        name: &str,
        fragment_definition: &FragmentDefinition,
    )
        ensures
            final(ctx).schema == old(ctx).schema,
            final(ctx).type_stack@ == old(ctx).type_stack@,
            errors_view(final(ctx).errors@) == errors_view(old(ctx).errors@) + fragment_errors(
                old(ctx).schema.type_map@,
                old(ctx).spec_current(),
                name@,
                fragment_definition.position,
            ),
    {
        check_condition(ctx, name, fragment_definition.position);
    }

    /// Checks an inline fragment, whose type scope is innermost in `ctx`.
    pub fn enter_inline_fragment(&mut self, ctx: &mut ValidationContext, inline_fragment: &InlineFragment)
        ensures
            final(ctx).schema == old(ctx).schema,
            final(ctx).type_stack@ == old(ctx).type_stack@,
            errors_view(final(ctx).errors@) == errors_view(old(ctx).errors@) + fragment_errors(
                old(ctx).schema.type_map@,
                old(ctx).spec_current(),
                match old(ctx).spec_current() {
                    Some(t) => t,
                    None => Seq::empty(),
                },
                inline_fragment.position,
            ),
    {
        let label = match ctx.current_type() {
            Some(t) => t.clone(),
            None => String::new(),
        };
        check_condition(ctx, label.as_str(), inline_fragment.position);
    }
}

/// The root type of an operation kind.
pub open spec fn root_type(schema: Schema, kind: OperationType) -> Seq<char> {
    match kind {
        OperationType::Query => schema.query_type_name@,
        OperationType::Mutation => schema.mutation_type_name@,
        OperationType::Subscription => schema.subscription_type_name@,
    }
}

/// The errors of the operations, in order.
pub open spec fn operations_errors(schema: Schema, ops: Seq<OperationDefinition>) -> Seq<
    (Seq<char>, Seq<Pos>),
>
    decreases ops.len(),
{
    if ops.len() == 0 {
        Seq::empty()
    } else {
        let op = ops.last();
        operations_errors(schema, ops.drop_last()) + items_errors(
            schema.type_map@,
            Some(root_type(schema, op.operation_type)),
            op.selection_set.items@,
        )
    }
}

/// The errors of the fragment definitions, in order.
pub open spec fn fragments_errors(defs: Seq<GqlTypeDefinition>, frags: Seq<FragmentDefinition>) -> Seq<
    (Seq<char>, Seq<Pos>),
>
    decreases frags.len(),
{
    if frags.len() == 0 {
        Seq::empty()
    } else {
        let fd = frags.last();
        fragments_errors(defs, frags.drop_last()) + fragment_errors(
            defs,
            Some(fd.type_condition@),
            fd.name@,
            fd.position,
        ) + items_errors(defs, Some(fd.type_condition@), fd.selection_set.items@)
    }
}

/// Every error of a document: those of its operations, then those of its
/// fragment definitions.
pub open spec fn document_errors(schema: Schema, doc: Document) -> Seq<(Seq<char>, Seq<Pos>)> {
    operations_errors(schema, doc.operations@) + fragments_errors(
        schema.type_map@,
        doc.fragments@,
    )
}

/// The rules of a validation pass; each sees every traversal event.
pub struct Rules {
    pub scalar_leafs: ScalarLeafs,
    pub fragments_on_composite_types: FragmentsOnCompositeTypes,
}

fn scope_of(t: Option<&String>) -> (r: Option<String>)
    ensures
        scope_name(r) == ref_name(t),
{
    match t {
        Some(s) => Some(s.clone()),
        None => None,
    }
}

impl Rules {
    /// Walks a sequence of selections in the innermost scope of `ctx`.
    pub fn visit_items(&mut self, ctx: &mut ValidationContext, items: &Vec<Selection>)
        ensures
            final(ctx).schema == old(ctx).schema,
            final(ctx).type_stack@ == old(ctx).type_stack@,
            errors_view(final(ctx).errors@) == errors_view(old(ctx).errors@) + items_errors(
                old(ctx).schema.type_map@,
                old(ctx).spec_current(),
                items@,
            ),
        decreases items,
    {
        let ghost schema = ctx.schema;
        let ghost stack = ctx.type_stack@;
        let ghost base = errors_view(ctx.errors@);
        let ghost cur = old(ctx).spec_current();
        let mut i: usize = 0;
        assert(items@.subrange(0, 0) =~= Seq::<Selection>::empty());
        assert(base + items_errors(schema.type_map@, cur, Seq::empty()) =~= base);
        while i < items.len()
            invariant
                i <= items@.len(),
                ctx.schema == schema,
                ctx.type_stack@ == stack,
                cur == ctx.spec_current(),
                errors_view(ctx.errors@) == base + items_errors(
                    schema.type_map@,
                    cur,
                    items@.subrange(0, i as int),
                ),
            decreases items.len() - i,
        {
            let ghost before = errors_view(ctx.errors@);
            match &items[i] {
                Selection::Field(f) => {
                    let t = field_type_of(ctx.schema, ctx.current_type(), f.name.as_str());
                    ctx.push_type(t);
                    self.scalar_leafs.enter_field(ctx, f);
                    assert(decreases_to!(*items => items[i as int]));
                    assert(decreases_to!(items[i as int] => items[i as int]->Field_0));
                    assert(decreases_to!(items[i as int]->Field_0 => f.selection_set));
                    assert(decreases_to!(f.selection_set => f.selection_set.items));
                    assert(decreases_to!(*items => f.selection_set.items));
                    self.visit_items(ctx, &f.selection_set.items);
                    ctx.pop_type();
                    assert(ctx.type_stack@ =~= stack);
                },
                Selection::InlineFragment(inl) => {
                    let scope = match &inl.type_condition {
                        Some(t) => Some(t.clone()),
                        None => scope_of(ctx.current_type()),
                    };
                    ctx.push_type(scope);
                    self.fragments_on_composite_types.enter_inline_fragment(ctx, inl);
                    assert(decreases_to!(*items => items[i as int]));
                    assert(decreases_to!(items[i as int] => items[i as int]->InlineFragment_0));
                    assert(decreases_to!(items[i as int]->InlineFragment_0 => inl.selection_set));
                    assert(decreases_to!(inl.selection_set => inl.selection_set.items));
                    assert(decreases_to!(*items => inl.selection_set.items));
                    self.visit_items(ctx, &inl.selection_set.items);
                    ctx.pop_type();
                    assert(ctx.type_stack@ =~= stack);
                },
                Selection::FragmentSpread(_) => {},
            }
            assert(items@.subrange(0, i + 1).subrange(0, i as int) =~= items@.subrange(0, i as int));
            assert(errors_view(ctx.errors@) =~= before + selection_errors(
                schema.type_map@,
                cur,
                items@[i as int],
            ));
            i = i + 1;
        }
        assert(items@.subrange(0, i as int) =~= items@);
    }

    /// Walks an operation in the scope of its root type.
    fn visit_operation(&mut self, ctx: &mut ValidationContext, op: &OperationDefinition)
        ensures
            final(ctx).schema == old(ctx).schema,
            final(ctx).type_stack@ == old(ctx).type_stack@,
            errors_view(final(ctx).errors@) == errors_view(old(ctx).errors@) + items_errors(
                old(ctx).schema.type_map@,
                Some(root_type(*old(ctx).schema, op.operation_type)),
                op.selection_set.items@,
            ),
    {
        let root = match op.operation_type {
            OperationType::Query => ctx.schema.query_type_name.clone(),
            OperationType::Mutation => ctx.schema.mutation_type_name.clone(),
            OperationType::Subscription => ctx.schema.subscription_type_name.clone(),
        };
        let ghost stack = ctx.type_stack@;
        ctx.push_type(Some(root));
        self.visit_items(ctx, &op.selection_set.items);
        ctx.pop_type();
        assert(ctx.type_stack@ =~= stack);
    }

    /// Checks a fragment definition and walks it in the scope of its condition.
    fn visit_fragment(&mut self, ctx: &mut ValidationContext, fd: &FragmentDefinition)
        ensures
            final(ctx).schema == old(ctx).schema,
            final(ctx).type_stack@ == old(ctx).type_stack@,
            errors_view(final(ctx).errors@) == errors_view(old(ctx).errors@) + fragment_errors(
                old(ctx).schema.type_map@,
                Some(fd.type_condition@),
                fd.name@,
                fd.position,
            ) + items_errors(
                old(ctx).schema.type_map@,
                Some(fd.type_condition@),
                fd.selection_set.items@,
            ),
    {
        let ghost stack = ctx.type_stack@;
        ctx.push_type(Some(fd.type_condition.clone()));
        self.fragments_on_composite_types.enter_fragment_definition(ctx, fd.name.as_str(), fd);
        self.visit_items(ctx, &fd.selection_set.items);
        ctx.pop_type();
        assert(ctx.type_stack@ =~= stack);
    }
}

/// Validates a document against a schema with the leaf rule and the fragment
/// rule, walking it once and keeping every error; an empty result means the
/// document may be executed.
pub fn validate(schema: &Schema, document: &Document) -> (r: Vec<ValidationError>)
    ensures
        errors_view(r@) == document_errors(*schema, *document),
{
    let mut ctx = ValidationContext::new(schema);
    let mut rules = Rules {
        scalar_leafs: ScalarLeafs,
        fragments_on_composite_types: FragmentsOnCompositeTypes,
    };
    let ops = &document.operations;
    let mut i: usize = 0;
    assert(errors_view(ctx.errors@) =~= Seq::empty());
    while i < ops.len()
        invariant
            i <= ops@.len(),
            ctx.schema == schema,
            ctx.type_stack@.len() == 0,
            errors_view(ctx.errors@) == operations_errors(*schema, ops@.subrange(0, i as int)),
        decreases ops.len() - i,
    {
        rules.visit_operation(&mut ctx, &ops[i]);
        assert(ops@.subrange(0, i + 1).drop_last() =~= ops@.subrange(0, i as int));
        i = i + 1;
    }
    assert(ops@.subrange(0, i as int) =~= ops@);
    let ghost after_ops = errors_view(ctx.errors@);
    let frags = &document.fragments;
    let mut j: usize = 0;
    assert(after_ops + fragments_errors(schema.type_map@, frags@.subrange(0, 0)) =~= after_ops);
    while j < frags.len()
        invariant
            j <= frags@.len(),
            ctx.schema == schema,
            ctx.type_stack@.len() == 0,
            errors_view(ctx.errors@) == after_ops + fragments_errors(
                schema.type_map@,
                frags@.subrange(0, j as int),
            ),
        decreases frags.len() - j,
    {
        rules.visit_fragment(&mut ctx, &frags[j]);
        assert(frags@.subrange(0, j + 1).drop_last() =~= frags@.subrange(0, j as int));
        j = j + 1;
    }
    assert(frags@.subrange(0, j as int) =~= frags@);
    ctx.errors
}

} // verus!
