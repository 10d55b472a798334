use vstd::prelude::*;

verus! {

/// A type expression as written in a schema or query: a named type wrapped
/// in any number of list and non-null markers.
#[derive(Debug)]
pub enum GqlValueType {
    NamedType(String),
    ListType(Box<GqlValueType>),
    NonNullType(Box<GqlValueType>),
}

impl GqlValueType {
    /// The named type at the bottom of the wrapping.
    pub open spec fn base_name(&self) -> Seq<char>
        decreases self,
    {
        match self {
            GqlValueType::NamedType(name) => name@,
            GqlValueType::ListType(inner) => inner.base_name(),
            GqlValueType::NonNullType(inner) => inner.base_name(),
        }
    }

    /// The name of the named type under all list and non-null wrappers.
    pub fn name(&self) -> (r: String)
        ensures
            r@ == self.base_name(),
        decreases self,
    {
        match self {
            GqlValueType::NamedType(name) => name.clone(),
            GqlValueType::ListType(list_type) => list_type.name(),
            GqlValueType::NonNullType(non_null_type) => non_null_type.name(),
        }
    }

    /// Whether the outermost wrapper is non-null.
    pub fn is_non_null(&self) -> (r: bool)
        ensures
            r == (self is NonNullType),
    {
        match self {
            GqlValueType::NonNullType(_) => true,
            _ => false,
        }
    }
}

impl Clone for GqlValueType {
    fn clone(&self) -> (r: Self)
        ensures
            r == *self,
        decreases self,
    {
        match self {
            GqlValueType::NamedType(name) => GqlValueType::NamedType(name.clone()),
            GqlValueType::ListType(inner) => GqlValueType::ListType(Box::new((**inner).clone())),
            GqlValueType::NonNullType(inner) => GqlValueType::NonNullType(
                Box::new((**inner).clone()),
            ),
        }
    }
}

} // verus!
