//! A GraphQL engine core: a typed schema model, query validation, field
//! collection across fragments, variable coercion, selection of resolved
//! values, and completion of responses with null propagation.
//!
//! Parsing of schema and query text, running the (asynchronous) resolvers
//! and transport are left to the caller, which hands the library parsed
//! documents and the values that resolvers returned.
pub mod ast;
pub mod code_files;
pub mod collect;
pub mod context;
pub mod execution;
pub mod laws;
pub mod projection;
pub mod schema;
pub mod text;
pub mod validation;
pub mod value;
pub mod value_type;
pub mod variables;

pub use ast::{
    Directive, Document, Field, FragmentDefinition, FragmentSpread, InlineFragment,
    OperationDefinition, OperationType, Pos, Selection, SelectionSet, Value, VariableDefinition,
};
pub use code_files::{
    argument_names, dir_path_str, file_path_str, gql_file_types, operation_call_line,
    type_file_dir, type_file_names, use_gql_definitions, ModFile, OperationModFile, TypeFileNames,
};
pub use collect::{collect_fields, collect_items, is_included};
pub use context::{
    build_context, build_operation, collect_query_fields, complete_root, ExecutionContext,
    Operation,
};
pub use execution::{complete, GqlError, PathSegment, Resolved, ResolvedField};
pub use projection::{project, resolve_tree};
pub use schema::{
    build_schema, get_type_from_schema, is_gql_primitive_ty, GqlArgument, GqlDirectiveDefinition,
    GqlEnum, GqlEnumValue, GqlField, GqlInputObject, GqlInterface, GqlObject, GqlScalar,
    GqlTypeDefinition, GqlUnion, RootTypeNames, Schema, SchemaDocument, SchemaError,
};
pub use validation::{
    validate, FragmentsOnCompositeTypes, Rules, ScalarLeafs, ValidationContext, ValidationError,
};
pub use value::{object_from_entries, variant_value, GqlValue, SerializerError, Variables};
pub use value_type::GqlValueType;
pub use variables::{get_variables, value_from_ast};
