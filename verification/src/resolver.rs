//! What the emitter reads of a resolved Solidity program.
use vstd::prelude::*;

verus! {

/// A resolved type: the compiler knows it by `index`, and its head in an ABI
/// encoding takes `encoded_fixed_length` bytes.
#[derive(Clone, Copy, PartialEq, Eq, Structural, Debug)]
pub struct Type {
    pub index: usize,
    pub encoded_fixed_length: u64,
}

/// A parameter of a function or a constructor.
#[derive(Clone, Copy, PartialEq, Eq, Structural, Debug)]
pub struct Parameter {
    pub ty: Type,
}

/// A function or a constructor.
#[derive(PartialEq, Eq, Debug)]
pub struct Function {
    pub params: Vec<Parameter>,
}

/// A contract. `fallback` is the index of its fallback function, where it has one.
#[derive(PartialEq, Eq, Debug)]
pub struct Contract {
    pub name: String,
    pub constructors: Vec<Function>,
    pub functions: Vec<Function>,
    pub fallback: Option<usize>,
}

impl Contract {
    /// The fallback function is one of the functions.
    pub open spec fn wf(self) -> bool {
        self.fallback matches Some(f) ==> f < self.functions@.len()
    }

    /// The index of the fallback function, if any.
    pub fn fallback_function(&self) -> (f: Option<usize>)
        ensures
            f == self.fallback,
    {
        self.fallback
    }
}

/// Every contract of the program.
#[derive(PartialEq, Eq, Debug)]
pub struct Namespace {
    pub contracts: Vec<Contract>,
}

} // verus!
