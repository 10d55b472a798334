use vstd::prelude::*;

use heck::ToSnakeCase;

use crate::ast::OperationType;
use crate::schema::{
    is_builtin_scalar, is_gql_primitive_ty, GqlArgument, GqlField, GqlTypeDefinition, Schema,
};
use crate::text::{concat, same_text};

verus! {

/// The snake-case form of an identifier, as heck computes it.
pub uninterp spec fn snake_case_of(s: Seq<char>) -> Seq<char>;

/// Relies on heck's `ToSnakeCase::to_snake_case` for `str`: the result
/// depends on the characters alone, and a text with no words gives an empty
/// one.
#[verifier::external_body]
fn snake_case(s: &str) -> (r: String)
    ensures
        r@ == snake_case_of(s@),
        s@.len() == 0 ==> r@.len() == 0,
{
    s.to_snake_case()
}

/// The parts joined with `/` between them.
pub open spec fn joined(parts: Seq<Seq<char>>) -> Seq<char>
    decreases parts.len(),
{
    if parts.len() == 0 {
        Seq::empty()
    } else if parts.len() == 1 {
        parts[0]
    } else {
        joined(parts.drop_last()) + "/"@ + parts.last()
    }
}

/// The characters of each borrowed string.
pub open spec fn texts(parts: Seq<&str>) -> Seq<Seq<char>> {
    parts.map_values(|p: &str| p@)
}

fn join_path(paths: &Vec<&str>) -> (r: String)
    ensures
        r@ == joined(texts(paths@)),
{
    let mut r = String::new();
    let mut i: usize = 0;
    while i < paths.len()
        invariant
            i <= paths@.len(),
            r@ == joined(texts(paths@.subrange(0, i as int))),
        decreases paths.len() - i,
    {
        let ghost prev = paths@.subrange(0, i as int);
        let ghost next = paths@.subrange(0, i + 1);
        assert(texts(next).drop_last() =~= texts(prev));
        if i == 0 {
            r = paths[i].to_string();
            assert(r@ == joined(texts(next)));
        } else {
            r = concat(r.as_str(), "/");
            r = concat(r.as_str(), paths[i]);
        }
        i = i + 1;
    }
    assert(paths@.subrange(0, i as int) =~= paths@);
    r
}

/// The path of a Rust source file: the parts joined with `/`, then `.rs`.
pub fn file_path_str(paths: Vec<&str>) -> (r: String)
    ensures
        r@ == joined(texts(paths@)) + ".rs"@,
{
    let path_str = join_path(&paths);
    concat(path_str.as_str(), ".rs")
}

/// The path of a directory: the parts joined with `/`.
pub fn dir_path_str(paths: Vec<&str>) -> (r: String)
    ensures
        r@ == joined(texts(paths@)),
{
    join_path(&paths)
}

/// The directories of generated code, one per kind of file.
pub open spec fn file_kinds() -> Seq<Seq<char>> {
    seq![
        "query"@,
        "mutation"@,
        "subscription"@,
        "model"@,
        "directive"@,
        "scalar"@,
        "input"@,
        "interface"@,
    ]
}

/// The directory names of generated code.
pub fn gql_file_types() -> (r: Vec<String>)
    ensures
        r@.map_values(|s: String| s@) == file_kinds(),
{
    let r = vec![
        "query".to_string(),
        "mutation".to_string(),
        "subscription".to_string(),
        "model".to_string(),
        "directive".to_string(),
        "scalar".to_string(),
        "input".to_string(),
        "interface".to_string(),
    ];
    assert(r@.map_values(|s: String| s@) =~= file_kinds());
    r
}

/// The imports that every generated file starts with.
pub open spec fn definitions_use() -> Seq<char> {
    "use crate::graphql::*;\nuse rusty_gql::ID;"@
}

/// The imports at the top of each generated file.
pub fn use_gql_definitions() -> (r: &'static str)
    ensures
        r@ == definitions_use(),
{
    "use crate::graphql::*;\nuse rusty_gql::ID;"
}

/// The `mod.rs` of a directory of generated files.
pub struct ModFile<'a> {
    pub file_names: Vec<String>,
    pub path: &'a str,
}

/// `mod x;` lines for the first `n` names, in snake case.
pub open spec fn mod_lines(names: Seq<String>, n: int) -> Seq<char>
    decreases n,
{
    if n <= 0 {
        Seq::empty()
    } else {
        mod_lines(names, n - 1) + "mod "@ + snake_case_of(names[n - 1]@) + ";\n"@
    }
}

/// `pub use x::Name;` lines for the first `n` names.
pub open spec fn use_lines(names: Seq<String>, n: int) -> Seq<char>
    decreases n,
{
    if n <= 0 {
        Seq::empty()
    } else {
        use_lines(names, n - 1) + "pub use "@ + snake_case_of(names[n - 1]@) + "::"@
            + names[n - 1]@ + ";\n"@
    }
}

impl<'a> ModFile<'a> {
    /// One `mod` line per file, a blank line, then one `pub use` line per file.
    pub fn content(&self) -> (r: String)
        ensures
            r@ == mod_lines(self.file_names@, self.file_names@.len() as int) + "\n"@ + use_lines(
                self.file_names@,
                self.file_names@.len() as int,
            ),
    {
        let mut mod_str = String::new();
        let mut pub_use_str = String::new();
        let mut i: usize = 0;
        while i < self.file_names.len()
            invariant
                i <= self.file_names@.len(),
                mod_str@ == mod_lines(self.file_names@, i as int),
                pub_use_str@ == use_lines(self.file_names@, i as int),
            decreases self.file_names.len() - i,
        {
            let name = &self.file_names[i];
            let snake = snake_case(name.as_str());
            mod_str = concat(mod_str.as_str(), "mod ");
            mod_str = concat(mod_str.as_str(), snake.as_str());
            mod_str = concat(mod_str.as_str(), ";\n");
            pub_use_str = concat(pub_use_str.as_str(), "pub use ");
            pub_use_str = concat(pub_use_str.as_str(), snake.as_str());
            pub_use_str = concat(pub_use_str.as_str(), "::");
            pub_use_str = concat(pub_use_str.as_str(), name.as_str());
            pub_use_str = concat(pub_use_str.as_str(), ";\n");
            i = i + 1;
        }
        let r = concat(mod_str.as_str(), "\n");
        concat(r.as_str(), pub_use_str.as_str())
    }

    /// The file's path: `<path>/mod.rs`.
    pub fn path(&self) -> (r: String)
        ensures
            r@ == self.path@ + "/mod.rs"@,
    {
        let parts = vec![self.path, "mod"];
        assert(parts@ =~= seq![self.path, "mod"]);
        let r = file_path_str(parts);
        proof {
            let ps = seq![self.path, "mod"];
            assert(texts(ps) =~= seq![self.path@, "mod"@]);
            let t = texts(ps);
            assert(t.drop_last() =~= seq![self.path@]);
            assert(joined(t.drop_last()) == self.path@);
            assert(joined(t) == self.path@ + "/"@ + "mod"@);
            reveal_strlit("/mod.rs");
            reveal_strlit("/");
            reveal_strlit("mod");
            reveal_strlit(".rs");
            assert(r@ =~= self.path@ + "/mod.rs"@);
        }
        r
    }
}

/// The names of the generated type files, by directory.
pub struct TypeFileNames {
    pub model_names: Vec<String>,
    pub interface_names: Vec<String>,
    pub input_names: Vec<String>,
    pub scalar_names: Vec<String>,
}

/// A definition gets a file of its own unless it is a built-in scalar or a
/// root operation type.
pub open spec fn gets_file(schema: Schema, d: GqlTypeDefinition) -> bool {
    !is_builtin_scalar(d.spec_name()) && d.spec_name() != schema.query_type_name@
        && d.spec_name() != schema.mutation_type_name@ && d.spec_name()
        != schema.subscription_type_name@
}

/// The names, in order, of the first `n` definitions that get a file and
/// satisfy `kind`.
pub open spec fn names_of(
    schema: Schema,
    defs: Seq<GqlTypeDefinition>,
    n: int,
    kind: spec_fn(GqlTypeDefinition) -> bool,
) -> Seq<Seq<char>>
    decreases n,
{
    if n <= 0 {
        Seq::empty()
    } else if gets_file(schema, defs[n - 1]) && kind(defs[n - 1]) {
        names_of(schema, defs, n - 1, kind).push(defs[n - 1].spec_name())
    } else {
        names_of(schema, defs, n - 1, kind)
    }
}

/// Objects, unions and enums go under `model`.
pub open spec fn is_model(d: GqlTypeDefinition) -> bool {
    d is Object || d is Union || d is Enum
}

/// Interfaces go under `interface`.
pub open spec fn is_interface(d: GqlTypeDefinition) -> bool {
    d is Interface
}

/// Input objects go under `input`.
pub open spec fn is_input(d: GqlTypeDefinition) -> bool {
    d is InputObject
}

/// Scalars go under `scalar`.
pub open spec fn is_scalar(d: GqlTypeDefinition) -> bool {
    d is Scalar
}

/// Sorts the schema's types into the directories of generated code: objects,
/// unions and enums under `model`, then interfaces, input objects and
/// scalars. Built-in scalars and root operation types are left out.
pub fn type_file_names(schema: &Schema) -> (r: TypeFileNames)
    ensures
        ({
            let defs = schema.type_map@;
            let n = defs.len() as int;
            &&& r.model_names@.map_values(|s: String| s@) == names_of(
                *schema,
                defs,
                n,
                |d: GqlTypeDefinition| is_model(d),
            )
            &&& r.interface_names@.map_values(|s: String| s@) == names_of(
                *schema,
                defs,
                n,
                |d: GqlTypeDefinition| is_interface(d),
            )
            &&& r.input_names@.map_values(|s: String| s@) == names_of(
                *schema,
                defs,
                n,
                |d: GqlTypeDefinition| is_input(d),
            )
            &&& r.scalar_names@.map_values(|s: String| s@) == names_of(
                *schema,
                defs,
                n,
                |d: GqlTypeDefinition| is_scalar(d),
            )
        }),
{
    let ghost defs = schema.type_map@;
    let mut r = TypeFileNames {
        model_names: Vec::new(),
        interface_names: Vec::new(),
        input_names: Vec::new(),
        scalar_names: Vec::new(),
    };
    let mut i: usize = 0;
    assert(r.model_names@.map_values(|s: String| s@) =~= Seq::<Seq<char>>::empty());
    assert(r.interface_names@.map_values(|s: String| s@) =~= Seq::<Seq<char>>::empty());
    assert(r.input_names@.map_values(|s: String| s@) =~= Seq::<Seq<char>>::empty());
    assert(r.scalar_names@.map_values(|s: String| s@) =~= Seq::<Seq<char>>::empty());
    while i < schema.type_map.len()
        invariant
            i <= defs.len(),
            defs == schema.type_map@,
            r.model_names@.map_values(|s: String| s@) == names_of(
                *schema,
                defs,
                i as int,
                |d: GqlTypeDefinition| is_model(d),
            ),
            r.interface_names@.map_values(|s: String| s@) == names_of(
                *schema,
                defs,
                i as int,
                |d: GqlTypeDefinition| is_interface(d),
            ),
            r.input_names@.map_values(|s: String| s@) == names_of(
                *schema,
                defs,
                i as int,
                |d: GqlTypeDefinition| is_input(d),
            ),
            r.scalar_names@.map_values(|s: String| s@) == names_of(
                *schema,
                defs,
                i as int,
                |d: GqlTypeDefinition| is_scalar(d),
            ),
        decreases defs.len() - i,
    {
        let d = &schema.type_map[i];
        let name = d.name();
        let skip = is_gql_primitive_ty(name.as_str()) || same_text(
            name.as_str(),
            schema.query_type_name.as_str(),
        ) || same_text(name.as_str(), schema.mutation_type_name.as_str()) || same_text(
            name.as_str(),
            schema.subscription_type_name.as_str(),
        );
        if !skip {
            let ghost m0 = r.model_names@;
            let ghost f0 = r.interface_names@;
            let ghost n0 = r.input_names@;
            let ghost s0 = r.scalar_names@;
            match d {
                GqlTypeDefinition::Object(_) | GqlTypeDefinition::Union(_)
                | GqlTypeDefinition::Enum(_) => {
                    r.model_names.push(name.clone());
                    assert(r.model_names@.map_values(|s: String| s@) =~= m0.map_values(
                        |s: String| s@,
                    ).push(name@));
                },
                GqlTypeDefinition::Interface(_) => {
                    r.interface_names.push(name.clone());
                    assert(r.interface_names@.map_values(|s: String| s@) =~= f0.map_values(
                        |s: String| s@,
                    ).push(name@));
                },
                GqlTypeDefinition::InputObject(_) => {
                    r.input_names.push(name.clone());
                    assert(r.input_names@.map_values(|s: String| s@) =~= n0.map_values(
                        |s: String| s@,
                    ).push(name@));
                },
                GqlTypeDefinition::Scalar(_) => {
                    r.scalar_names.push(name.clone());
                    assert(r.scalar_names@.map_values(|s: String| s@) =~= s0.map_values(
                        |s: String| s@,
                    ).push(name@));
                },
            }
        }
        i = i + 1;
    }
    r
}

/// The directory of a type's generated file.
pub fn type_file_dir(d: &GqlTypeDefinition) -> (r: &'static str)
    ensures
        r@ == match d {
            GqlTypeDefinition::Scalar(_) => "scalar"@,
            GqlTypeDefinition::Interface(_) => "interface"@,
            GqlTypeDefinition::InputObject(_) => "input"@,
            _ => "model"@,
        },
{
    match d {
        GqlTypeDefinition::Scalar(_) => "scalar",
        GqlTypeDefinition::Interface(_) => "interface",
        GqlTypeDefinition::InputObject(_) => "input",
        _ => "model",
    }
}

/// The `mod.rs` of the directory of one operation kind's resolvers.
pub struct OperationModFile<'a> {
    pub operations: &'a Vec<GqlField>,
    pub operation_type: OperationType,
    pub path: String,
    pub interface_names: &'a Vec<String>,
}

/// `mod x;` lines for the first `n` operations, by name.
pub open spec fn operation_mod_lines(ops: Seq<GqlField>, n: int) -> Seq<char>
    decreases n,
{
    if n <= 0 {
        Seq::empty()
    } else {
        operation_mod_lines(ops, n - 1) + "mod "@ + ops[n - 1].name@ + ";\n"@
    }
}

/// The names of the first `n` arguments, separated by commas.
pub open spec fn argument_list(args: Seq<GqlArgument>, n: int) -> Seq<char>
    decreases n,
{
    if n <= 0 {
        Seq::empty()
    } else if n == 1 {
        args[0].name@
    } else {
        argument_list(args, n - 1) + ","@ + args[n - 1].name@
    }
}

/// The body line of an operation's resolver: a call of the function of the
/// same name in the operation's own file.
pub open spec fn call_line(op: GqlField) -> Seq<char> {
    op.name@ + "::"@ + op.name@ + "("@ + argument_list(op.arguments@, op.arguments@.len() as int)
        + ").await"@
}

impl<'a> OperationModFile<'a> {
    /// The file's name.
    pub fn name(&self) -> (r: String)
        ensures
            r@ == "mod.rs"@,
    {
        "mod.rs".to_string()
    }

    /// The file's path.
    pub fn path(&self) -> (r: String)
        ensures
            r@ == self.path@,
    {
        self.path.clone()
    }

    /// One `mod` line per operation, in order.
    pub fn mod_lines(&self) -> (r: String)
        ensures
            r@ == operation_mod_lines(self.operations@, self.operations@.len() as int),
    {
        let mut r = String::new();
        let mut i: usize = 0;
        while i < self.operations.len()
            invariant
                i <= self.operations@.len(),
                r@ == operation_mod_lines(self.operations@, i as int),
            decreases self.operations.len() - i,
        {
            r = concat(r.as_str(), "mod ");
            r = concat(r.as_str(), self.operations[i].name.as_str());
            r = concat(r.as_str(), ";\n");
            i = i + 1;
        }
        r
    }

    /// Whether the operation returns an interface type, which the generated
    /// resolver takes as a type parameter.
    pub fn returns_interface(&self, op: &GqlField) -> (r: bool)
        ensures
            r == exists|i: int|
                0 <= i < self.interface_names@.len() && self.interface_names@[i]@
                    == op.meta_type.base_name(),
    {
        let name = op.meta_type.name();
        let mut i: usize = 0;
        while i < self.interface_names.len()
            invariant
                i <= self.interface_names@.len(),
                name@ == op.meta_type.base_name(),
                forall|j: int| 0 <= j < i ==> self.interface_names@[j]@ != name@,
            decreases self.interface_names.len() - i,
        {
            if self.interface_names[i] == name {
                return true;
            }
            i = i + 1;
        }
        false
    }
}

/// The argument names of an operation, separated by commas.
pub fn argument_names(args: &Vec<GqlArgument>) -> (r: String)
    ensures
        r@ == argument_list(args@, args@.len() as int),
{
    let mut r = String::new();
    let mut i: usize = 0;
    while i < args.len()
        invariant
            i <= args@.len(),
            r@ == argument_list(args@, i as int),
        decreases args.len() - i,
    {
        if i > 0 {
            r = concat(r.as_str(), ",");
        }
        r = concat(r.as_str(), args[i].name.as_str());
        i = i + 1;
    }
    r
}

/// The body line of an operation's resolver, as `call_line` describes.
pub fn operation_call_line(op: &GqlField) -> (r: String)
    ensures
        r@ == call_line(*op),
{
    let r = concat(op.name.as_str(), "::");
    let r = concat(r.as_str(), op.name.as_str());
    let r = concat(r.as_str(), "(");
    let args = argument_names(&op.arguments);
    let r = concat(r.as_str(), args.as_str());
    concat(r.as_str(), ").await")
}

} // verus!
