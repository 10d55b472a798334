use vstd::prelude::*;

use crate::text::same_text;
use crate::value_type::GqlValueType;

verus! {

/// An argument of a field or directive, or a field of an input object.
#[derive(Debug)]
pub struct GqlArgument {
    pub name: String,
    pub meta_type: GqlValueType,
}

/// A field of an object or interface type.
#[derive(Debug)]
pub struct GqlField {
    pub name: String,
    pub arguments: Vec<GqlArgument>,
    pub meta_type: GqlValueType,
}

/// A scalar type.
#[derive(Debug)]
pub struct GqlScalar {
    pub name: String,
}

/// An object type: its fields and the interfaces it implements.
#[derive(Debug)]
pub struct GqlObject {
    pub name: String,
    pub implements_interfaces: Vec<String>,
    pub fields: Vec<GqlField>,
}

/// An interface type and its fields.
#[derive(Debug)]
pub struct GqlInterface {
    pub name: String,
    pub fields: Vec<GqlField>,
}

/// A union type and the names of its member types.
#[derive(Debug)]
pub struct GqlUnion {
    pub name: String,
    pub types: Vec<String>,
}

/// One value of an enum type.
#[derive(Debug)]
pub struct GqlEnumValue {
    pub name: String,
}

/// An enum type and its values.
#[derive(Debug)]
pub struct GqlEnum {
    pub name: String,
    pub values: Vec<GqlEnumValue>,
}

/// An input object type and its input fields.
#[derive(Debug)]
pub struct GqlInputObject {
    pub name: String,
    pub fields: Vec<GqlArgument>,
}

/// A named type of a schema, one variant per kind.
#[derive(Debug)]
pub enum GqlTypeDefinition {
    Scalar(GqlScalar),
    Object(GqlObject),
    Interface(GqlInterface),
    Union(GqlUnion),
    Enum(GqlEnum),
    InputObject(GqlInputObject),
}

/// A directive definition and its arguments.
#[derive(Debug)]
pub struct GqlDirectiveDefinition {
    pub name: String,
    pub arguments: Vec<GqlArgument>,
}

/// The root operation types that a `schema { ... }` definition names.
#[derive(Debug)]
pub struct RootTypeNames {
    pub query: Option<String>,
    pub mutation: Option<String>,
    pub subscription: Option<String>,
}

/// One parsed schema document.
#[derive(Debug)]
pub struct SchemaDocument {
    pub definitions: Vec<GqlTypeDefinition>,
    pub schema_definition: Option<RootTypeNames>,
    pub directives: Vec<GqlDirectiveDefinition>,
}

/// Why a set of schema documents does not make a schema.
#[derive(Debug)]
pub enum SchemaError {
    DuplicateTypeName(String),
    UnknownRootType(String),
    UnresolvedTypeReference(String),
}

/// A built schema: every named type once, root operation type names, and
/// directive definitions.
#[derive(Debug)]
pub struct Schema {
    pub type_map: Vec<GqlTypeDefinition>,
    pub query_type_name: String,
    pub mutation_type_name: String,
    pub subscription_type_name: String,
    pub directives: Vec<GqlDirectiveDefinition>,
}

impl GqlTypeDefinition {
    /// The type's name.
    pub open spec fn spec_name(&self) -> Seq<char> {
        match self {
            GqlTypeDefinition::Scalar(d) => d.name@,
            GqlTypeDefinition::Object(d) => d.name@,
            GqlTypeDefinition::Interface(d) => d.name@,
            GqlTypeDefinition::Union(d) => d.name@,
            GqlTypeDefinition::Enum(d) => d.name@,
            GqlTypeDefinition::InputObject(d) => d.name@,
        }
    }

    /// The type's name.
    pub fn name(&self) -> (r: &String)
        ensures
            r@ == self.spec_name(),
    {
        match self {
            GqlTypeDefinition::Scalar(d) => &d.name,
            GqlTypeDefinition::Object(d) => &d.name,
            GqlTypeDefinition::Interface(d) => &d.name,
            GqlTypeDefinition::Union(d) => &d.name,
            GqlTypeDefinition::Enum(d) => &d.name,
            GqlTypeDefinition::InputObject(d) => &d.name,
        }
    }

    /// Scalars and enums are leaf types.
    pub fn is_leaf_type(&self) -> (r: bool)
        ensures
            r == (self is Scalar || self is Enum),
    {
        match self {
            GqlTypeDefinition::Scalar(_) | GqlTypeDefinition::Enum(_) => true,
            _ => false,
        }
    }

    /// Objects, interfaces and unions are composite types.
    pub fn is_composite_type(&self) -> (r: bool)
        ensures
            r == (self is Object || self is Interface || self is Union),
    {
        match self {
            GqlTypeDefinition::Object(_) | GqlTypeDefinition::Interface(_)
            | GqlTypeDefinition::Union(_) => true,
            _ => false,
        }
    }

    /// The fields of an object or interface type; none for other kinds.
    pub open spec fn spec_fields(&self) -> Seq<GqlField> {
        match self {
            GqlTypeDefinition::Object(d) => d.fields@,
            GqlTypeDefinition::Interface(d) => d.fields@,
            _ => Seq::empty(),
        }
    }

    /// The first field named `name` of an object or interface type.
    pub fn get_field_by_name(&self, name: &str) -> (r: Option<&GqlField>)
        ensures
            match r {
                Some(f) => exists|i: int|
                    0 <= i < self.spec_fields().len() && self.spec_fields()[i] == *f
                        && f.name@ == name@ && forall|j: int|
                        0 <= j < i ==> self.spec_fields()[j].name@ != name@,
                None => forall|i: int|
                    0 <= i < self.spec_fields().len() ==> self.spec_fields()[i].name@ != name@,
            },
            match r {
                Some(f) => field_named(self.spec_fields(), name@) == Some(*f),
                None => field_named(self.spec_fields(), name@) is None,
            },
    {
        let fields = match self {
            GqlTypeDefinition::Object(d) => &d.fields,
            GqlTypeDefinition::Interface(d) => &d.fields,
            _ => {
                return None;
            },
        };
        let mut i: usize = 0;
        assert(fields@.subrange(0, fields@.len() as int) =~= fields@);
        while i < fields.len()
            invariant
                i <= fields@.len(),
                fields@ == self.spec_fields(),
                forall|j: int| 0 <= j < i ==> fields@[j].name@ != name@,
                field_named(fields@, name@) == field_named(
                    fields@.subrange(i as int, fields@.len() as int),
                    name@,
                ),
            decreases fields.len() - i,
        {
            let ghost rest = fields@.subrange(i as int, fields@.len() as int);
            assert(rest.drop_first() =~= fields@.subrange(i + 1, fields@.len() as int));
            if same_text(fields[i].name.as_str(), name) {
                return Some(&fields[i]);
            }
            i = i + 1;
        }
        None
    }
}

/// The first field named `name`.
pub open spec fn field_named(fields: Seq<GqlField>, name: Seq<char>) -> Option<GqlField>
    decreases fields.len(),
{
    if fields.len() == 0 {
        None
    } else if fields[0].name@ == name {
        Some(fields[0])
    } else {
        field_named(fields.drop_first(), name)
    }
}

/// The first definition named `name`.
pub open spec fn type_named(defs: Seq<GqlTypeDefinition>, name: Seq<char>) -> Option<
    GqlTypeDefinition,
>
    decreases defs.len(),
{
    if defs.len() == 0 {
        None
    } else if defs[0].spec_name() == name {
        Some(defs[0])
    } else {
        type_named(defs.drop_first(), name)
    }
}

/// The names of the five built-in scalars.
pub open spec fn is_builtin_scalar(name: Seq<char>) -> bool {
    name == "String"@ || name == "Int"@ || name == "Float"@ || name == "Boolean"@ || name
        == "ID"@
}

/// Whether `name` is one of the built-in scalars `String`, `Int`, `Float`,
/// `Boolean` and `ID`.
pub fn is_gql_primitive_ty(name: &str) -> (r: bool)
    ensures
        r == is_builtin_scalar(name@),
{
    same_text(name, "String") || same_text(name, "Int") || same_text(name, "Float")
        || same_text(name, "Boolean") || same_text(name, "ID")
}

/// Some definition in `defs` has the name `name`.
pub open spec fn defines(defs: Seq<GqlTypeDefinition>, name: Seq<char>) -> bool {
    exists|i: int| 0 <= i < defs.len() && defs[i].spec_name() == name
}

/// `name` is a built-in scalar or defined in `defs`.
pub open spec fn type_known(defs: Seq<GqlTypeDefinition>, name: Seq<char>) -> bool {
    is_builtin_scalar(name) || defines(defs, name)
}

/// Every argument's type is known.
pub open spec fn args_resolve(defs: Seq<GqlTypeDefinition>, args: Seq<GqlArgument>) -> bool {
    forall|k: int| 0 <= k < args.len() ==> type_known(defs, #[trigger] args[k].meta_type.base_name())
}

/// Every field's type and every argument's type is known.
pub open spec fn fields_resolve(defs: Seq<GqlTypeDefinition>, fields: Seq<GqlField>) -> bool {
    forall|k: int|
        0 <= k < fields.len() ==> type_known(defs, (#[trigger] fields[k]).meta_type.base_name())
            && args_resolve(defs, fields[k].arguments@)
}

/// Every type that one definition refers to through a field, an argument or
/// an input field is known.
pub open spec fn def_resolves(defs: Seq<GqlTypeDefinition>, d: GqlTypeDefinition) -> bool {
    match d {
        GqlTypeDefinition::Object(o) => fields_resolve(defs, o.fields@),
        GqlTypeDefinition::Interface(o) => fields_resolve(defs, o.fields@),
        GqlTypeDefinition::InputObject(o) => args_resolve(defs, o.fields@),
        _ => true,
    }
}

/// Every type reference of the definitions and directives is known.
pub open spec fn all_resolve(
    defs: Seq<GqlTypeDefinition>,
    dirs: Seq<GqlDirectiveDefinition>,
) -> bool {
    &&& forall|i: int| 0 <= i < defs.len() ==> def_resolves(defs, #[trigger] defs[i])
    &&& forall|i: int| 0 <= i < dirs.len() ==> args_resolve(defs, (#[trigger] dirs[i]).arguments@)
}

/// Two definitions share a name.
pub open spec fn has_duplicate(defs: Seq<GqlTypeDefinition>) -> bool {
    exists|i: int, j: int| 0 <= i < j < defs.len() && defs[i].spec_name() == defs[j].spec_name()
}

/// The definitions of all documents, in order.
pub open spec fn merged_definitions(docs: Seq<SchemaDocument>) -> Seq<GqlTypeDefinition>
    decreases docs.len(),
{
    if docs.len() == 0 {
        Seq::empty()
    } else {
        merged_definitions(docs.drop_last()) + docs.last().definitions@
    }
}

/// The directive definitions of all documents, in order.
pub open spec fn merged_directives(docs: Seq<SchemaDocument>) -> Seq<GqlDirectiveDefinition>
    decreases docs.len(),
{
    if docs.len() == 0 {
        Seq::empty()
    } else {
        merged_directives(docs.drop_last()) + docs.last().directives@
    }
}

/// The name of a root type: the override, else the conventional name.
pub open spec fn root_name(over: Option<String>, conventional: Seq<char>) -> Seq<char> {
    match over {
        Some(n) => n@,
        None => conventional,
    }
}

/// An override, where there is one, names a defined type.
pub open spec fn override_ok(defs: Seq<GqlTypeDefinition>, over: Option<String>) -> bool {
    match over {
        Some(n) => defines(defs, n@),
        None => true,
    }
}

/// The root type overrides that the last `schema` definition of the
/// documents gives; none if no document has one.
pub open spec fn overrides(docs: Seq<SchemaDocument>) -> (Option<String>, Option<String>, Option<String>)
    decreases docs.len(),
{
    if docs.len() == 0 {
        (None, None, None)
    } else {
        match docs.last().schema_definition {
            Some(r) => (r.query, r.mutation, r.subscription),
            None => overrides(docs.drop_last()),
        }
    }
}

/// Every root type override of the documents names a defined type.
pub open spec fn roots_ok(docs: Seq<SchemaDocument>) -> bool {
    let defs = merged_definitions(docs);
    let o = overrides(docs);
    override_ok(defs, o.0) && override_ok(defs, o.1) && override_ok(defs, o.2)
}

impl Schema {
    /// Names are unique and every type reference is known.
    pub open spec fn wf(&self) -> bool {
        !has_duplicate(self.type_map@) && all_resolve(self.type_map@, self.directives@)
    }

    /// The definition named `name`, if the schema has one.
    pub fn get_type(&self, name: &str) -> (r: Option<&GqlTypeDefinition>)
        ensures
            match r {
                Some(d) => d.spec_name() == name@ && exists|i: int|
                    0 <= i < self.type_map@.len() && self.type_map@[i] == *d,
                None => !defines(self.type_map@, name@),
            },
            match r {
                Some(d) => type_named(self.type_map@, name@) == Some(*d),
                None => type_named(self.type_map@, name@) is None,
            },
    {
        match find_type(&self.type_map, name) {
            Some(i) => Some(&self.type_map[i]),
            None => None,
        }
    }
}

/// The definition that a declared type refers to under its list and
/// non-null wrappers, if the schema defines it.
pub fn get_type_from_schema<'a>(schema: &'a Schema, var_type: &GqlValueType) -> (r: Option<
    &'a GqlTypeDefinition,
>)
    ensures
        match r {
            Some(d) => type_named(schema.type_map@, var_type.base_name()) == Some(*d),
            None => type_named(schema.type_map@, var_type.base_name()) is None,
        },
{
    let name = var_type.name();
    schema.get_type(name.as_str())
}

/// The position of the first definition named `name`.
pub fn find_type(defs: &Vec<GqlTypeDefinition>, name: &str) -> (r: Option<usize>)
    ensures
        match r {
            Some(i) => i < defs@.len() && defs@[i as int].spec_name() == name@ && forall|j: int|
                0 <= j < i ==> defs@[j].spec_name() != name@,
            None => !defines(defs@, name@),
        },
        match r {
            Some(i) => type_named(defs@, name@) == Some(defs@[i as int]),
            None => type_named(defs@, name@) is None,
        },
{
    let mut i: usize = 0;
    assert(defs@.subrange(0, defs@.len() as int) =~= defs@);
    while i < defs.len()
        invariant
            i <= defs@.len(),
            forall|j: int| 0 <= j < i ==> defs@[j].spec_name() != name@,
            type_named(defs@, name@) == type_named(
                defs@.subrange(i as int, defs@.len() as int),
                name@,
            ),
        decreases defs.len() - i,
    {
        let ghost rest = defs@.subrange(i as int, defs@.len() as int);
        assert(rest.drop_first() =~= defs@.subrange(i + 1, defs@.len() as int));
        if same_text(defs[i].name().as_str(), name) {
            return Some(i);
        }
        i = i + 1;
    }
    None
}

/// A name that two definitions share, if any.
fn find_duplicate(defs: &Vec<GqlTypeDefinition>) -> (r: Option<String>)
    ensures
        r is None <==> !has_duplicate(defs@),
        match r {
            Some(n) => exists|i: int, j: int|
                0 <= i < j < defs@.len() && defs@[i].spec_name() == n@ && defs@[j].spec_name()
                    == n@,
            None => true,
        },
{
    let mut j: usize = 0;
    while j < defs.len()
        invariant
            j <= defs@.len(),
            forall|a: int, b: int|
                0 <= a < b < j ==> defs@[a].spec_name() != defs@[b].spec_name(),
        decreases defs.len() - j,
    {
        let mut i: usize = 0;
        while i < j
            invariant
                i <= j < defs@.len(),
                forall|a: int| 0 <= a < i ==> defs@[a].spec_name() != defs@[j as int].spec_name(),
            decreases j - i,
        {
            if same_text(defs[i].name().as_str(), defs[j].name().as_str()) {
                return Some(defs[j].name().clone());
            }
            i = i + 1;
        }
        j = j + 1;
    }
    None
}

/// Whether `name` is a built-in scalar or defined in `defs`.
fn is_type_known(defs: &Vec<GqlTypeDefinition>, name: &str) -> (r: bool)
    ensures
        r == type_known(defs@, name@),
{
    is_gql_primitive_ty(name) || find_type(defs, name).is_some()
}

/// An argument type that is not known, if any.
fn unknown_in_args(defs: &Vec<GqlTypeDefinition>, args: &Vec<GqlArgument>) -> (r: Option<String>)
    ensures
        r is None <==> args_resolve(defs@, args@),
        match r {
            Some(n) => !type_known(defs@, n@),
            None => true,
        },
{
    let mut k: usize = 0;
    while k < args.len()
        invariant
            k <= args@.len(),
            forall|a: int| 0 <= a < k ==> type_known(defs@, #[trigger] args@[a].meta_type.base_name()),
        decreases args.len() - k,
    {
        let n = args[k].meta_type.name();
        if !is_type_known(defs, n.as_str()) {
            return Some(n);
        }
        k = k + 1;
    }
    None
}

/// A field or argument type that is not known, if any.
fn unknown_in_fields(defs: &Vec<GqlTypeDefinition>, fields: &Vec<GqlField>) -> (r: Option<String>)
    ensures
        r is None <==> fields_resolve(defs@, fields@),
        match r {
            Some(n) => !type_known(defs@, n@),
            None => true,
        },
{
    let mut k: usize = 0;
    while k < fields.len()
        invariant
            k <= fields@.len(),
            forall|a: int|
                0 <= a < k ==> type_known(defs@, (#[trigger] fields@[a]).meta_type.base_name())
                    && args_resolve(defs@, fields@[a].arguments@),
        decreases fields.len() - k,
    {
        let n = fields[k].meta_type.name();
        if !is_type_known(defs, n.as_str()) {
            return Some(n);
        }
        match unknown_in_args(defs, &fields[k].arguments) {
            Some(m) => {
                return Some(m);
            },
            None => {},
        }
        k = k + 1;
    }
    None
}

/// A type that some definition or directive refers to and that is not known.
fn unknown_reference(defs: &Vec<GqlTypeDefinition>, dirs: &Vec<GqlDirectiveDefinition>) -> (r:
    Option<String>)
    ensures
        r is None <==> all_resolve(defs@, dirs@),
        match r {
            Some(n) => !type_known(defs@, n@),
            None => true,
        },
{
    let mut i: usize = 0;
    while i < defs.len()
        invariant
            i <= defs@.len(),
            forall|a: int| 0 <= a < i ==> def_resolves(defs@, #[trigger] defs@[a]),
        decreases defs.len() - i,
    {
        let found = match &defs[i] {
            GqlTypeDefinition::Object(o) => unknown_in_fields(defs, &o.fields),
            GqlTypeDefinition::Interface(o) => unknown_in_fields(defs, &o.fields),
            GqlTypeDefinition::InputObject(o) => unknown_in_args(defs, &o.fields),
            _ => None,
        };
        if found.is_some() {
            return found;
        }
        i = i + 1;
    }
    let mut j: usize = 0;
    while j < dirs.len()
        invariant
            j <= dirs@.len(),
            forall|a: int| 0 <= a < defs@.len() ==> def_resolves(defs@, #[trigger] defs@[a]),
            forall|a: int| 0 <= a < j ==> args_resolve(defs@, (#[trigger] dirs@[a]).arguments@),
        decreases dirs.len() - j,
    {
        let found = unknown_in_args(defs, &dirs[j].arguments);
        if found.is_some() {
            return found;
        }
        j = j + 1;
    }
    None
}

/// The override's name if it names no defined type.
fn unknown_override(defs: &Vec<GqlTypeDefinition>, over: &Option<String>) -> (r: Option<String>)
    ensures
        r is None <==> override_ok(defs@, *over),
        match r {
            Some(n) => *over == Some(n) && !defines(defs@, n@),
            None => true,
        },
{
    match over {
        Some(n) => if find_type(defs, n.as_str()).is_some() {
            None
        } else {
            Some(n.clone())
        },
        None => None,
    }
}

/// The root type name: the override, else the conventional name.
fn root_or(over: Option<String>, conventional: &str) -> (r: String)
    ensures
        r@ == root_name(over, conventional@),
{
    match over {
        Some(n) => n,
        None => conventional.to_string(),
    }
}

/// Builds a schema from parsed documents, all or nothing.
///
/// Fails with `DuplicateTypeName` if two definitions share a name; else with
/// `UnknownRootType` if a `schema` definition names an undefined root type;
/// else with `UnresolvedTypeReference` if a field, argument or input field
/// refers to a type that is neither defined nor a built-in scalar.
pub fn build_schema(documents: Vec<SchemaDocument>) -> (r: Result<Schema, SchemaError>)
    ensures
        ({
            let defs = merged_definitions(documents@);
            let dirs = merged_directives(documents@);
            let o = overrides(documents@);
            &&& (r is Ok) == (!has_duplicate(defs) && roots_ok(documents@) && all_resolve(
                defs,
                dirs,
            ))
            &&& match r {
                Ok(s) => {
                    &&& s.type_map@ == defs
                    &&& s.directives@ == dirs
                    &&& s.query_type_name@ == root_name(o.0, "Query"@)
                    &&& s.mutation_type_name@ == root_name(o.1, "Mutation"@)
                    &&& s.subscription_type_name@ == root_name(o.2, "Subscription"@)
                    &&& s.wf()
                },
                Err(SchemaError::DuplicateTypeName(n)) => exists|i: int, j: int|
                    0 <= i < j < defs.len() && defs[i].spec_name() == n@ && defs[j].spec_name()
                        == n@,
                Err(SchemaError::UnknownRootType(n)) => {
                    &&& !has_duplicate(defs)
                    &&& (o.0 == Some(n) || o.1 == Some(n) || o.2 == Some(n))
                    &&& !defines(defs, n@)
                },
                Err(SchemaError::UnresolvedTypeReference(n)) => {
                    &&& !has_duplicate(defs)
                    &&& roots_ok(documents@)
                    &&& !type_known(defs, n@)
                },
            }
        }),
{
    let ghost docs = documents@;
    let n_docs: usize = documents.len();
    let mut rest = documents;
    let mut defs: Vec<GqlTypeDefinition> = Vec::new();
    let mut dirs: Vec<GqlDirectiveDefinition> = Vec::new();
    let mut query: Option<String> = None;
    let mut mutation: Option<String> = None;
    let mut subscription: Option<String> = None;
    let mut k: usize = 0;
    while rest.len() > 0
        invariant
            n_docs == docs.len(),
            k + rest@.len() == docs.len(),
            rest@ == docs.subrange(k as int, docs.len() as int),
            defs@ == merged_definitions(docs.subrange(0, k as int)),
            dirs@ == merged_directives(docs.subrange(0, k as int)),
            (query, mutation, subscription) == overrides(docs.subrange(0, k as int)),
        decreases rest.len(),
    {
        let doc = rest.remove(0);
        let SchemaDocument { definitions, schema_definition, directives } = doc;
        let mut definitions = definitions;
        let mut directives = directives;
        defs.append(&mut definitions);
        dirs.append(&mut directives);
        match schema_definition {
            Some(roots) => {
                query = roots.query;
                mutation = roots.mutation;
                subscription = roots.subscription;
            },
            None => {},
        }
        assert(docs.subrange(0, k + 1).drop_last() =~= docs.subrange(0, k as int));
        k = k + 1;
        assert(rest@ =~= docs.subrange(k as int, docs.len() as int));
    }
    assert(docs.subrange(0, k as int) =~= docs);
    match find_duplicate(&defs) {
        Some(n) => {
            return Err(SchemaError::DuplicateTypeName(n));
        },
        None => {},
    }
    match unknown_override(&defs, &query) {
        Some(n) => {
            return Err(SchemaError::UnknownRootType(n));
        },
        None => {},
    }
    match unknown_override(&defs, &mutation) {
        Some(n) => {
            return Err(SchemaError::UnknownRootType(n));
        },
        None => {},
    }
    match unknown_override(&defs, &subscription) {
        Some(n) => {
            return Err(SchemaError::UnknownRootType(n));
        },
        None => {},
    }
    match unknown_reference(&defs, &dirs) {
        Some(n) => {
            return Err(SchemaError::UnresolvedTypeReference(n));
        },
        None => {},
    }
    Ok(
        Schema {
            type_map: defs,
            query_type_name: root_or(query, "Query"),
            mutation_type_name: root_or(mutation, "Mutation"),
            subscription_type_name: root_or(subscription, "Subscription"),
            directives: dirs,
        },
    )
}

} // verus!
