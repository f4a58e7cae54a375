//! The type `bool`.

use vstd::prelude::*;
use crate::vm::bytecode::{TypeDef, TypeFlags};

verus! {

/// The type of the booleans: immutable, with no methods.
pub fn register_type() -> (t: TypeDef)
    ensures
        t.name@ == "bool"@,
        t.flags.bits == 1,
        t.methods@.len() == 0,
{
    TypeDef { name: "bool".to_owned(), flags: TypeFlags::immutable(), methods: Vec::new() }
}

} // verus!
