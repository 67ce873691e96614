use vstd::prelude::*;

verus! {

/// Names the type of value that a fragment maps to; it links a matcher to
/// the mapper that converts what it accepts.
#[derive(Clone, Copy, Debug, PartialEq, Eq, Structural)]
pub enum TypeIdentity {
    /// No value: the fragment is pure syntax.
    Unit,
    Bool,
    U8,
    U16,
    U32,
    U64,
    U128,
    I8,
    I16,
    I32,
    I64,
    I128,
    /// The fragment's own text.
    Text,
    /// A user identifier.
    User,
}

/// A type that has a `TypeIdentity`.
pub trait TypeKey {
    spec fn spec_identity() -> TypeIdentity;

    fn identity() -> (r: TypeIdentity)
        ensures
            r == Self::spec_identity(),
    ;
}

/// A user identifier.
#[derive(Clone, Copy, Debug, PartialEq, Eq, Structural)]
pub struct UserId(pub u64);

impl TypeKey for () {
    open spec fn spec_identity() -> TypeIdentity {
        TypeIdentity::Unit
    }

    fn identity() -> (r: TypeIdentity) {
        TypeIdentity::Unit
    }
}

impl TypeKey for bool {
    open spec fn spec_identity() -> TypeIdentity {
        TypeIdentity::Bool
    }

    fn identity() -> (r: TypeIdentity) {
        TypeIdentity::Bool
    }
}

impl TypeKey for u8 {
    open spec fn spec_identity() -> TypeIdentity {
        TypeIdentity::U8
    }

    fn identity() -> (r: TypeIdentity) {
        TypeIdentity::U8
    }
}

impl TypeKey for u16 {
    open spec fn spec_identity() -> TypeIdentity {
        TypeIdentity::U16
    }

    fn identity() -> (r: TypeIdentity) {
        TypeIdentity::U16
    }
}

impl TypeKey for u32 {
    open spec fn spec_identity() -> TypeIdentity {
        TypeIdentity::U32
    }

    fn identity() -> (r: TypeIdentity) {
        TypeIdentity::U32
    }
}

impl TypeKey for u64 {
    open spec fn spec_identity() -> TypeIdentity {
        TypeIdentity::U64
    }

    fn identity() -> (r: TypeIdentity) {
        TypeIdentity::U64
    }
}

impl TypeKey for u128 {
    open spec fn spec_identity() -> TypeIdentity {
        TypeIdentity::U128
    }

    fn identity() -> (r: TypeIdentity) {
        TypeIdentity::U128
    }
}

impl TypeKey for i8 {
    open spec fn spec_identity() -> TypeIdentity {
        TypeIdentity::I8
    }

    fn identity() -> (r: TypeIdentity) {
        TypeIdentity::I8
    }
}

impl TypeKey for i16 {
    open spec fn spec_identity() -> TypeIdentity {
        TypeIdentity::I16
    }

    fn identity() -> (r: TypeIdentity) {
        TypeIdentity::I16
    }
}

impl TypeKey for i32 {
    open spec fn spec_identity() -> TypeIdentity {
        TypeIdentity::I32
    }

    fn identity() -> (r: TypeIdentity) {
        TypeIdentity::I32
    }
}

impl TypeKey for i64 {
    open spec fn spec_identity() -> TypeIdentity {
        TypeIdentity::I64
    }

    fn identity() -> (r: TypeIdentity) {
        TypeIdentity::I64
    }
}

impl TypeKey for i128 {
    open spec fn spec_identity() -> TypeIdentity {
        TypeIdentity::I128
    }

    fn identity() -> (r: TypeIdentity) {
        TypeIdentity::I128
    }
}

impl TypeKey for String {
    open spec fn spec_identity() -> TypeIdentity {
        TypeIdentity::Text
    }

    fn identity() -> (r: TypeIdentity) {
        TypeIdentity::Text
    }
}

impl TypeKey for UserId {
    open spec fn spec_identity() -> TypeIdentity {
        TypeIdentity::User
    }

    fn identity() -> (r: TypeIdentity) {
        TypeIdentity::User
    }
}

} // verus!
