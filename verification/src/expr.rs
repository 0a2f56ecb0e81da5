//! Parts of expressions that hold no numbers: keywords and procedure
//! signatures.

use vstd::prelude::*;

verus! {

/// A keyword of the syntax.
#[derive(Debug, Clone, PartialEq, Eq, Structural)]
pub enum Keyword {
    Dot,
}

/// How many arguments a procedure takes when called.
#[derive(Debug, Clone)]
pub struct Signature {
    /// The fixed number of arguments the procedure accepts.
    pub arity: u8,
    /// The procedure takes a variable number of arguments after its fixed
    /// arguments.
    pub variadic: bool,
}

impl Signature {
    /// A signature of `arity` fixed arguments, variadic or not.
    pub(crate) fn new(arity: u8, variadic: bool) -> (sig: Self)
        ensures
            sig.arity == arity,
            sig.variadic == variadic,
    {
        Signature { arity, variadic }
    }

    /// The signature of a procedure that takes no arguments.
    pub(crate) fn empty() -> (sig: Self)
        ensures
            sig.arity == 0,
            !sig.variadic,
    {
        Self::new(0, false)
    }
}

} // verus!
