//! The type `NoneType`.

use vstd::prelude::*;
use crate::vm::bytecode::{TypeDef, TypeFlags};

verus! {

/// The type of None: immutable, with no methods.
pub fn register_type() -> (t: TypeDef)
    ensures
        t.name@ == "NoneType"@,
        t.flags.bits == 1,
        t.methods@.len() == 0,
{
    TypeDef { name: "NoneType".to_owned(), flags: TypeFlags::immutable(), methods: Vec::new() }
}

} // verus!
