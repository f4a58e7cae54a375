use pyhyeon::vm::builtins::{bool_builtin, float, int_type, none_type, range, str, str_builtin};
use pyhyeon::builtins::{Arity, TYPE_BOOL, TYPE_INT, TYPE_NONE, TYPE_RANGE, TYPE_STR};
use pyhyeon::vm::bytecode::{MethodImpl, Module, NativeMethod, TypeFlags};

#[test]
fn test_module_type_table_initialization() {
    let module = Module::new();
    assert_eq!(module.types.len(), 5);
    assert_eq!(module.types[TYPE_INT as usize].name, "int");
    assert_eq!(module.types[TYPE_BOOL as usize].name, "bool");
    assert_eq!(module.types[TYPE_STR as usize].name, "str");
    assert_eq!(module.types[TYPE_NONE as usize].name, "NoneType");
    assert_eq!(module.types[TYPE_RANGE as usize].name, "range");
}

#[test]
fn test_str_type_has_methods() {
    let module = Module::new();
    let str_type = &module.types[TYPE_STR as usize];
    assert_eq!(str_type.methods.len(), 10);
    assert!(str_type.has_method("upper"));
    assert!(str_type.has_method("lower"));
    assert!(str_type.has_method("strip"));
    assert!(str_type.has_method("split"));
    assert!(str_type.has_method("join"));
    assert!(str_type.has_method("replace"));
    assert!(str_type.has_method("startswith"));
    assert!(str_type.has_method("endswith"));
    assert!(str_type.has_method("find"));
    assert!(str_type.has_method("count"));
}

#[test]
fn test_str_method_arity() {
    let module = Module::new();
    let str_type = &module.types[TYPE_STR as usize];
    if let Some(MethodImpl::Native { arity, .. }) = str_type.method("upper") {
        assert_eq!(arity, Arity::Exact(0));
    } else {
        panic!("upper method not found or not native");
    }
    if let Some(MethodImpl::Native { arity, .. }) = str_type.method("split") {
        assert_eq!(arity, Arity::Range(0, 1));
    } else {
        panic!("split method not found or not native");
    }
    if let Some(MethodImpl::Native { arity, .. }) = str_type.method("replace") {
        assert_eq!(arity, Arity::Exact(2));
    } else {
        panic!("replace method not found or not native");
    }
}

#[test]
fn test_range_type_has_iter() {
    let module = Module::new();
    let range_type = &module.types[TYPE_RANGE as usize];
    assert!(range_type.has_method("__iter__"));
    if let Some(MethodImpl::Native { func, arity }) = range_type.method("__iter__") {
        assert_eq!(func, NativeMethod::RangeIter);
        assert_eq!(arity, Arity::Exact(0));
    } else {
        panic!("__iter__ method not found or not native");
    }
}

#[test]
fn test_type_flags() {
    let module = Module::new();
    assert!(module.types[TYPE_INT as usize].flags.contains(TypeFlags::immutable()));
    let str_flags = module.types[TYPE_STR as usize].flags;
    assert!(str_flags.contains(TypeFlags::immutable()));
    assert!(str_flags.contains(TypeFlags::iterable()));
    let range_flags = module.types[TYPE_RANGE as usize].flags;
    assert!(range_flags.contains(TypeFlags::immutable()));
    assert!(range_flags.contains(TypeFlags::iterable()));
}

#[test]
fn test_module_default_equals_new() {
    let module1 = Module::new();
    let module2 = Module::default();
    assert_eq!(module1.types.len(), module2.types.len());
    for (t1, t2) in module1.types.iter().zip(module2.types.iter()) {
        assert_eq!(t1.name, t2.name);
        assert_eq!(t1.methods.len(), t2.methods.len());
    }
}

#[test]
fn int_type_is_not_iterable() {
    let module = Module::new();
    assert!(!module.types[TYPE_INT as usize].flags.contains(TypeFlags::iterable()));
    assert!(!module.types[TYPE_INT as usize].has_method("upper"));
}

#[test]
fn each_builtin_type_registers_itself() {
    let t = int_type::register_type();
    assert_eq!((t.name.as_str(), t.flags.bits, t.methods.len()), ("int", 1, 0));
    let t = bool_builtin::register_type();
    assert_eq!((t.name.as_str(), t.flags.bits, t.methods.len()), ("bool", 1, 0));
    let t = float::register_type();
    assert_eq!((t.name.as_str(), t.flags.bits, t.methods.len()), ("float", 1, 0));
    let t = none_type::register_type();
    assert_eq!((t.name.as_str(), t.flags.bits, t.methods.len()), ("NoneType", 1, 0));
    let t = range::register_type();
    assert_eq!((t.name.as_str(), t.flags.bits, t.methods.len()), ("range", 3, 3));
    assert_eq!(t.methods[0].0, "__iter__");
    assert_eq!(t.methods[0].1, MethodImpl::Native { func: NativeMethod::RangeIter, arity: Arity::Exact(0) });
    let t = str_builtin::register_type();
    assert_eq!((t.name.as_str(), t.flags.bits, t.methods.len()), ("str", 3, 10));
    let u = str::register_type();
    assert_eq!(u.methods.len(), 10);
    assert_eq!(u.methods[9].0, "count");
}
