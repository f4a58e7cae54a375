//! The type `str` and its native methods.

use vstd::prelude::*;
use crate::builtins::Arity;
use crate::vm::bytecode::{methods_view, native, str_methods, MethodImpl, NativeMethod, TypeDef, TypeFlags};

verus! {

/// The type of strings: immutable and iterable, with the ten native
/// methods of `str_methods`.
pub fn register_type() -> (t: TypeDef)
    ensures
        t.name@ == "str"@,
        t.flags.bits == 3,
        methods_view(t.methods@) == str_methods(),
{
    let flags = TypeFlags::immutable().union(TypeFlags::iterable());
    assert(1u32 | 2u32 == 3u32) by (bit_vector);
    let mut sm: Vec<(String, MethodImpl)> = Vec::new();
    sm.push(native("upper", NativeMethod::StrUpper, Arity::Exact(0)));
    sm.push(native("lower", NativeMethod::StrLower, Arity::Exact(0)));
    sm.push(native("strip", NativeMethod::StrStrip, Arity::Exact(0)));
    sm.push(native("split", NativeMethod::StrSplit, Arity::Range(0, 1)));
    sm.push(native("join", NativeMethod::StrJoin, Arity::Exact(1)));
    sm.push(native("replace", NativeMethod::StrReplace, Arity::Exact(2)));
    sm.push(native("startswith", NativeMethod::StrStartsWith, Arity::Exact(1)));
    sm.push(native("endswith", NativeMethod::StrEndsWith, Arity::Exact(1)));
    sm.push(native("find", NativeMethod::StrFind, Arity::Exact(1)));
    sm.push(native("count", NativeMethod::StrCount, Arity::Exact(1)));
    assert(methods_view(sm@) =~= str_methods());
    TypeDef { name: "str".to_owned(), flags, methods: sm }
}

} // verus!
