//! The type `float`.

use vstd::prelude::*;
use crate::vm::bytecode::{TypeDef, TypeFlags};

verus! {

/// The type of the floats: immutable, with no methods.
pub fn register_type() -> (t: TypeDef)
    ensures
        t.name@ == "float"@,
        t.flags.bits == 1,
        t.methods@.len() == 0,
{
    TypeDef { name: "float".to_owned(), flags: TypeFlags::immutable(), methods: Vec::new() }
}

} // verus!
