//! The type `range`.

use vstd::prelude::*;
use crate::builtins::Arity;
use crate::vm::bytecode::{methods_view, native, range_methods, MethodImpl, NativeMethod, TypeDef, TypeFlags};

verus! {

/// The type of ranges: immutable and iterable. A range is its own
/// iterator, so besides `__iter__` it has the `__has_next__` and `__next__`
/// that a `for` loop calls.
pub fn register_type() -> (t: TypeDef)
    ensures
        t.name@ == "range"@,
        t.flags.bits == 3,
        methods_view(t.methods@) == range_methods(),
{
    let flags = TypeFlags::immutable().union(TypeFlags::iterable());
    assert(1u32 | 2u32 == 3u32) by (bit_vector);
    let mut rm: Vec<(String, MethodImpl)> = Vec::new();
    rm.push(native("__iter__", NativeMethod::RangeIter, Arity::Exact(0)));
    rm.push(native("__has_next__", NativeMethod::RangeHasNext, Arity::Exact(0)));
    rm.push(native("__next__", NativeMethod::RangeNext, Arity::Exact(0)));
    assert(methods_view(rm@) =~= range_methods());
    TypeDef { name: "range".to_owned(), flags, methods: rm }
}

} // verus!
