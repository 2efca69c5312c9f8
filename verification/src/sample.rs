//! The running example used throughout the tests: a tiny program with a
//! record type, a module-nested function declaring two locals, and a
//! top-level reassignment of a record value.  The tests lower this program
//! by hand into a `TypedUnit` and traverse it.

use vstd::prelude::*;

verus! {

/// The example's record type.
pub struct StructB {
    pub field_c: i32,
}

/// The example's nested function: two local declarations, one with an
/// initializer inferred as an integer, one annotated and initialized as a
/// boolean.
#[allow(unused_variables, unused_mut)]
pub fn foo() {
    let a: i32 = 10;
    let mut b: bool = false;
}

} // verus!
