use vstd::prelude::*;

use crate::value_type::GqlValueType;

verus! {

/// A place in a query document.
#[derive(Debug, Clone, Copy, PartialEq, Eq, Structural)]
pub struct Pos {
    pub line: usize,
    pub column: usize,
}

/// A literal or variable as written in a query document. Numbers keep the
/// text they were written with.
#[derive(Debug)]
pub enum Value {
    Variable(String),
    Int(String),
    Float(String),
    String(String),
    Boolean(bool),
    Null,
    Enum(String),
    List(Vec<Value>),
    Object(Vec<(String, Value)>),
}

/// A directive applied to a selection, such as `@skip(if: $flag)`.
#[derive(Debug)]
pub struct Directive {
    pub position: Pos,
    pub name: String,
    pub arguments: Vec<(String, Value)>,
}

/// A field selection, with its alias, arguments, directives and sub-selection.
#[derive(Debug)]
pub struct Field {
    pub position: Pos,
    pub alias: Option<String>,
    pub name: String,
    pub arguments: Vec<(String, Value)>,
    pub directives: Vec<Directive>,
    pub selection_set: SelectionSet,
}

/// The selections written between one pair of braces.
#[derive(Debug)]
pub struct SelectionSet {
    pub items: Vec<Selection>,
}

/// `...Name`: the use of a named fragment.
#[derive(Debug)]
pub struct FragmentSpread {
    pub position: Pos,
    pub fragment_name: String,
    pub directives: Vec<Directive>,
}

/// `... on Type { ... }`, or `... { ... }` without a type condition.
#[derive(Debug)]
pub struct InlineFragment {
    pub position: Pos,
    pub type_condition: Option<String>,
    pub directives: Vec<Directive>,
    pub selection_set: SelectionSet,
}

/// One item of a selection set.
#[derive(Debug)]
pub enum Selection {
    Field(Field),
    FragmentSpread(FragmentSpread),
    InlineFragment(InlineFragment),
}

/// `fragment Name on Type { ... }`.
#[derive(Debug)]
pub struct FragmentDefinition {
    pub position: Pos,
    pub name: String,
    pub type_condition: String,
    pub selection_set: SelectionSet,
}

/// `$name: Type = default`.
#[derive(Debug)]
pub struct VariableDefinition {
    pub position: Pos,
    pub name: String,
    pub var_type: GqlValueType,
    pub default_value: Option<Value>,
}

/// The kind of an operation.
#[derive(Debug, Clone, Copy, PartialEq, Eq, Structural)]
pub enum OperationType {
    Query,
    Mutation,
    Subscription,
}

/// One operation of a query document.
#[derive(Debug)]
pub struct OperationDefinition {
    pub position: Pos,
    pub operation_type: OperationType,
    pub name: Option<String>,
    pub variable_definitions: Vec<VariableDefinition>,
    pub selection_set: SelectionSet,
}

/// A parsed query document.
#[derive(Debug)]
pub struct Document {
    pub operations: Vec<OperationDefinition>,
    pub fragments: Vec<FragmentDefinition>,
}

impl Field {
    /// The key under which the field's value appears in a response.
    pub open spec fn spec_response_key(&self) -> Seq<char> {
        match self.alias {
            Some(a) => a@,
            None => self.name@,
        }
    }

    /// The alias if there is one, else the field's name.
    pub fn response_key(&self) -> (r: &String)
        ensures
            r@ == self.spec_response_key(),
    {
        match &self.alias {
            Some(a) => a,
            None => &self.name,
        }
    }
}

/// The values that a sequence of references points to.
pub open spec fn derefs<T>(s: Seq<&T>) -> Seq<T> {
    s.map_values(|x: &T| *x)
}

} // verus!
