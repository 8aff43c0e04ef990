use vstd::prelude::*;

use crate::virtual_machine::register::vm::Function;

verus! {

/// Turns a `Function` into some executable form.
pub trait Compiler {
    type F;

    fn compile(f: Function) -> Self::F;
}

/// Runs functions in some executable form.
pub trait Runtime {
    type F;

    fn run(&self, f: &Self::F);
}

} // verus!
