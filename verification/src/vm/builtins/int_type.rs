//! The type `int`.

use vstd::prelude::*;
use crate::vm::bytecode::{TypeDef, TypeFlags};

verus! {

/// The type of the integers: immutable, with no methods.
pub fn register_type() -> (t: TypeDef)
    ensures
        t.name@ == "int"@,
        t.flags.bits == 1,
        t.methods@.len() == 0,
{
    TypeDef { name: "int".to_owned(), flags: TypeFlags::immutable(), methods: Vec::new() }
}

} // verus!
