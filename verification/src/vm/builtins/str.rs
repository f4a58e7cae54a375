//! The type `str`, as the type table registers it.

use vstd::prelude::*;
use crate::vm::bytecode::{methods_view, str_methods, TypeDef};

verus! {

/// The type of strings (see `str_builtin::register_type`).
pub fn register_type() -> (t: TypeDef)
    ensures
        t.name@ == "str"@,
        t.flags.bits == 3,
        methods_view(t.methods@) == str_methods(),
{
    crate::vm::builtins::str_builtin::register_type()
}

} // verus!
