use vstd::prelude::*;

verus! {

/// A runtime value of the hosting language, reduced to the shapes this
/// subsystem has to carry: the distinguished `undefined` value, booleans,
/// integers, and references to function objects (identified by a handle the
/// object substrate hands out).
#[derive(Clone, Copy, Debug, PartialEq, Eq, Structural)]
pub enum Value {
    Undefined,
    Bool(bool),
    Int(i64),
    Func(u64),
}

/// The shared intrinsic function references the builders install on every
/// arguments object: the values-iterator producer that array instances also
/// expose, and the poison function whose every call fails with a type error.
#[derive(Clone, Copy, Debug, PartialEq, Eq, Structural)]
pub struct Intrinsics {
    /// Function reference of the shared values-iterator producer.
    pub values_iterator: u64,
    /// Function reference of the shared poison function.
    pub throw_type_error: u64,
}

/// The type-error condition raised by the poison accessor and by rejected
/// property writes.
#[derive(Clone, Copy, Debug, PartialEq, Eq, Structural)]
pub struct TypeError;

} // verus!
