//! The bytecode: instructions, compiled functions, classes, the type table
//! and the module that holds them.

use vstd::prelude::*;
use crate::builtins::{Arity, BuiltinClassType};

verus! {

/// A runtime value. Strings are held by value; instances, ranges, lists,
/// dicts and closures live in the machine's heap and are referred to by index.
#[derive(Debug, Clone, PartialEq)]
pub enum Value {
    Int(i64),
    Bool(bool),
    NoneVal,
    /// A float, kept as the text of its literal.
    Float(String),
    Str(String),
    /// A user-defined class, by class id.
    Class(u16),
    /// A builtin class such as `range`.
    BuiltinClass(BuiltinClassType),
    /// An object in the heap.
    Ref(usize),
}

/// A user-defined class: its name and its methods (name, function id).
#[derive(Debug, Clone, PartialEq, Eq)]
pub struct ClassDef {
    pub name: String,
    pub methods: Vec<(String, u16)>,
}

#[derive(Debug, Clone, PartialEq, Eq)]
pub enum Instruction {
    // constants
    ConstI64(i64),
    /// A float constant, by the text of its literal.
    ConstF64(String),
    ConstStr(u32),
    LoadConst(u32),
    True,
    False,
    PushNone,
    Pop,

    // locals/globals
    LoadLocal(u16),
    StoreLocal(u16),
    LoadGlobal(u16),
    StoreGlobal(u16),

    // arithmetic
    Add,
    Sub,
    Mul,
    Div,
    TrueDiv,
    Mod,
    Neg,
    Pos,

    // compare/logical
    Eq,
    Ne,
    Lt,
    Le,
    Gt,
    Ge,
    Not,

    // control flow, relative to the next instruction
    Jump(i32),
    JumpIfFalse(i32),
    JumpIfTrue(i32),

    // call/return
    Call(u16, u8),
    CallBuiltin(u8, u8),
    Return,
    /// Calls the value below the arguments.
    CallValue(u8),
    /// Calls a method (by symbol) of the value below the arguments.
    CallMethod(u16, u8),
    LoadAttr(u16),
    StoreAttr(u16),

    // containers
    BuildList(u16),
    BuildDict(u16),
    LoadIndex,
    StoreIndex,
    /// Makes a closure of a function from the values on top of the stack.
    MakeClosure(u16, u8),
}

#[derive(Debug, Clone)]
pub struct FunctionCode {
    pub name_sym: u16,
    pub arity: u8,
    pub num_locals: u16,
    pub code: Vec<Instruction>,
}

/// Flags of a type, as a bit set.
#[derive(Debug, Clone, Copy, PartialEq, Eq, Structural)]
pub struct TypeFlags {
    pub bits: u32,
}

impl TypeFlags {
    /// Values of the type cannot change.
    pub fn immutable() -> (r: Self)
        ensures
            r.bits == 1,
    {
        TypeFlags { bits: 1 }
    }

    /// Values of the type can be iterated.
    pub fn iterable() -> (r: Self)
        ensures
            r.bits == 2,
    {
        TypeFlags { bits: 2 }
    }

    /// Both sets of flags.
    pub fn union(self, other: Self) -> (r: Self)
        ensures
            r.bits == self.bits | other.bits,
    {
        TypeFlags { bits: self.bits | other.bits }
    }

    /// Whether every flag of `other` is set.
    pub fn contains(self, other: Self) -> (r: bool)
        ensures
            r == (self.bits & other.bits == other.bits),
    {
        self.bits & other.bits == other.bits
    }
}

/// The methods implemented by the machine itself.
#[derive(Debug, Clone, Copy, PartialEq, Eq, Structural)]
pub enum NativeMethod {
    StrUpper,
    StrLower,
    StrStrip,
    StrSplit,
    StrJoin,
    StrReplace,
    StrStartsWith,
    StrEndsWith,
    StrFind,
    StrCount,
    RangeIter,
    RangeHasNext,
    RangeNext,
}

/// How a method of a type is implemented.
#[derive(Debug, Clone, Copy, PartialEq, Eq, Structural)]
pub enum MethodImpl {
    Native { func: NativeMethod, arity: Arity },
    UserDefined { func_id: u16 },
}

/// A type of the type table: its name, flags and methods.
#[derive(Debug, Clone)]
pub struct TypeDef {
    pub name: String,
    pub flags: TypeFlags,
    pub methods: Vec<(String, MethodImpl)>,
}

/// The method registered last under a name.
pub open spec fn method_of(methods: Seq<(String, MethodImpl)>, name: Seq<char>) -> Option<MethodImpl>
    decreases methods.len(),
{
    if methods.len() == 0 {
        None
    } else if methods.last().0@ == name {
        Some(methods.last().1)
    } else {
        method_of(methods.drop_last(), name)
    }
}

impl TypeDef {
    /// The method of this type with the given name.
    pub fn method(&self, name: &str) -> (r: Option<MethodImpl>)
        ensures
            r == method_of(self.methods@, name@),
    {
        let mut i = self.methods.len();
        assert(self.methods@.subrange(0, i as int) =~= self.methods@);
        while i > 0
            invariant
                i <= self.methods.len(),
                method_of(self.methods@, name@) == method_of(self.methods@.subrange(0, i as int), name@),
            decreases i,
        {
            let ghost pre = self.methods@.subrange(0, i as int);
            assert(pre.drop_last() =~= self.methods@.subrange(0, i - 1));
            if crate::builtins::str_eq(self.methods[i - 1].0.as_str(), name) {
                return Some(self.methods[i - 1].1);
            }
            i = i - 1;
        }
        assert(self.methods@.subrange(0, 0) =~= Seq::<(String, MethodImpl)>::empty());
        None
    }

    /// Whether this type has a method with the given name.
    pub fn has_method(&self, name: &str) -> (r: bool)
        ensures
            r == (method_of(self.methods@, name@) is Some),
    {
        self.method(name).is_some()
    }
}

/// A native method entry of a method table.
pub fn native(name: &str, func: NativeMethod, arity: Arity) -> (r: (String, MethodImpl))
    ensures
        r.0@ == name@,
        r.1 == (MethodImpl::Native { func, arity }),
{
    (name.to_owned(), MethodImpl::Native { func, arity })
}

/// The names of the builtin types, by type id.
pub open spec fn builtin_type_names() -> Seq<Seq<char>> {
    seq!["int"@, "bool"@, "str"@, "NoneType"@, "range"@]
}

/// The native methods of `str`, in registration order.
pub open spec fn str_methods() -> Seq<(Seq<char>, MethodImpl)> {
    seq![
        ("upper"@, MethodImpl::Native { func: NativeMethod::StrUpper, arity: Arity::Exact(0) }),
        ("lower"@, MethodImpl::Native { func: NativeMethod::StrLower, arity: Arity::Exact(0) }),
        ("strip"@, MethodImpl::Native { func: NativeMethod::StrStrip, arity: Arity::Exact(0) }),
        ("split"@, MethodImpl::Native { func: NativeMethod::StrSplit, arity: Arity::Range(0, 1) }),
        ("join"@, MethodImpl::Native { func: NativeMethod::StrJoin, arity: Arity::Exact(1) }),
        ("replace"@, MethodImpl::Native { func: NativeMethod::StrReplace, arity: Arity::Exact(2) }),
        ("startswith"@, MethodImpl::Native { func: NativeMethod::StrStartsWith, arity: Arity::Exact(1) }),
        ("endswith"@, MethodImpl::Native { func: NativeMethod::StrEndsWith, arity: Arity::Exact(1) }),
        ("find"@, MethodImpl::Native { func: NativeMethod::StrFind, arity: Arity::Exact(1) }),
        ("count"@, MethodImpl::Native { func: NativeMethod::StrCount, arity: Arity::Exact(1) })
    ]
}

/// The native methods of `range`, in registration order.
pub open spec fn range_methods() -> Seq<(Seq<char>, MethodImpl)> {
    seq![
        ("__iter__"@, MethodImpl::Native { func: NativeMethod::RangeIter, arity: Arity::Exact(0) }),
        ("__has_next__"@, MethodImpl::Native { func: NativeMethod::RangeHasNext, arity: Arity::Exact(0) }),
        ("__next__"@, MethodImpl::Native { func: NativeMethod::RangeNext, arity: Arity::Exact(0) })
    ]
}

/// A method table seen as names and implementations.
pub open spec fn methods_view(m: Seq<(String, MethodImpl)>) -> Seq<(Seq<char>, MethodImpl)> {
    m.map_values(|p: (String, MethodImpl)| (p.0@, p.1))
}

/// A compiled program.
#[derive(Debug, Clone)]
pub struct Module {
    pub consts: Vec<Value>,
    pub string_pool: Vec<String>,
    pub globals: Vec<Option<Value>>,
    pub symbols: Vec<String>,
    pub functions: Vec<FunctionCode>,
    pub classes: Vec<ClassDef>,
    /// The type table: builtin types by id, user types from id 100 on.
    pub types: Vec<TypeDef>,
}

impl Module {
    /// An empty module whose type table holds the builtin types `int`,
    /// `bool`, `str` (ten methods), `NoneType` and `range` (three methods).
    pub fn new() -> (m: Self)
        ensures
            m.consts@.len() == 0,
            m.string_pool@.len() == 0,
            m.globals@.len() == 0,
            m.symbols@.len() == 0,
            m.functions@.len() == 0,
            m.classes@.len() == 0,
            m.types@.len() == 5,
            forall|i: int| 0 <= i < 5 ==> (#[trigger] m.types@[i]).name@ == builtin_type_names()[i],
            methods_view(m.types@[2].methods@) == str_methods(),
            methods_view(m.types@[4].methods@) == range_methods(),
            m.types@[0].methods@.len() == 0,
            m.types@[1].methods@.len() == 0,
            m.types@[3].methods@.len() == 0,
            m.types@[0].flags.bits == 1,
            m.types@[1].flags.bits == 1,
            m.types@[2].flags.bits == 3,
            m.types@[3].flags.bits == 1,
            m.types@[4].flags.bits == 3,
    {
        let mut types: Vec<TypeDef> = Vec::new();
        types.push(crate::vm::builtins::int_type::register_type());
        types.push(crate::vm::builtins::bool_builtin::register_type());
        types.push(crate::vm::builtins::str_builtin::register_type());
        types.push(crate::vm::builtins::none_type::register_type());
        types.push(crate::vm::builtins::range::register_type());
        Module {
            consts: Vec::new(),
            string_pool: Vec::new(),
            globals: Vec::new(),
            symbols: Vec::new(),
            functions: Vec::new(),
            classes: Vec::new(),
            types,
        }
    }
}

impl Default for Module {
    /// The same as `Module::new`.
    fn default() -> (m: Self)
        ensures
            m.consts@.len() == 0,
            m.string_pool@.len() == 0,
            m.globals@.len() == 0,
            m.symbols@.len() == 0,
            m.functions@.len() == 0,
            m.classes@.len() == 0,
            m.types@.len() == 5,
            forall|i: int| 0 <= i < 5 ==> (#[trigger] m.types@[i]).name@ == builtin_type_names()[i],
            methods_view(m.types@[2].methods@) == str_methods(),
            methods_view(m.types@[4].methods@) == range_methods(),
            m.types@[0].methods@.len() == 0,
            m.types@[1].methods@.len() == 0,
            m.types@[3].methods@.len() == 0,
            m.types@[0].flags.bits == 1,
            m.types@[1].flags.bits == 1,
            m.types@[2].flags.bits == 3,
            m.types@[3].flags.bits == 1,
            m.types@[4].flags.bits == 3,
    {
        Module::new()
    }
}

/// The union of two flag sets contains each of them, and a set contains
/// itself.
pub proof fn law_union_contains(a: TypeFlags, b: TypeFlags)
    ensures
        (a.bits | b.bits) & a.bits == a.bits,
        (a.bits | b.bits) & b.bits == b.bits,
        a.bits & a.bits == a.bits,
{
    let x = a.bits;
    let y = b.bits;
    assert((x | y) & x == x) by (bit_vector);
    assert((x | y) & y == y) by (bit_vector);
    assert(x & x == x) by (bit_vector);
}

} // verus!
