//! The registry of builtin functions, their arities and the builtin type ids.

use vstd::prelude::*;
use crate::text::{push_char, u64_to_string, decimal_digits};

verus! {

pub const BUILTIN_PRINT_ID: u8 = 0;
pub const BUILTIN_INPUT_ID: u8 = 1;
pub const BUILTIN_INT_ID: u8 = 2;
pub const BUILTIN_BOOL_ID: u8 = 3;
pub const BUILTIN_STR_ID: u8 = 4;
pub const BUILTIN_LEN_ID: u8 = 5;
pub const BUILTIN_RANGE_ID: u8 = 6;
pub const BUILTIN_FLOAT_ID: u8 = 7;
pub const BUILTIN_LIST_ID: u8 = 8;
pub const BUILTIN_DICT_ID: u8 = 9;
pub const BUILTIN_ASSERT_ID: u8 = 10;

pub const TYPE_INT: u16 = 0;
pub const TYPE_BOOL: u16 = 1;
pub const TYPE_STR: u16 = 2;
pub const TYPE_NONE: u16 = 3;
pub const TYPE_RANGE: u16 = 4;
pub const TYPE_LIST: u16 = 5;
pub const TYPE_DICT: u16 = 6;
pub const TYPE_FLOAT: u16 = 7;
pub const TYPE_FUNCTION: u16 = 8;
pub const TYPE_TUPLE: u16 = 9;
pub const TYPE_SET: u16 = 10;
pub const TYPE_TREESET: u16 = 11;
/// Ids from here on belong to user-defined classes.
pub const TYPE_USER_START: u16 = 100;

/// How many arguments a callable accepts.
#[derive(Clone, Copy, Debug, PartialEq, Eq, Structural)]
pub enum Arity {
    /// Exactly this many.
    Exact(usize),
    /// Between the two bounds, both included.
    Range(usize, usize),
    /// Any number.
    Variadic,
}

/// Whether `got` arguments are acceptable for `a`.
pub open spec fn arity_accepts(a: Arity, got: nat) -> bool {
    match a {
        Arity::Exact(n) => got == n,
        Arity::Range(lo, hi) => lo <= got && got <= hi,
        Arity::Variadic => true,
    }
}

/// The human-readable description of an arity used in error messages.
pub open spec fn arity_text(a: Arity) -> Seq<char> {
    match a {
        Arity::Exact(n) => decimal_digits(n as nat),
        Arity::Range(lo, hi) => decimal_digits(lo as nat) + seq![' ', 't', 'o', ' '] + decimal_digits(hi as nat),
        Arity::Variadic => seq!['a', 'n', 'y'],
    }
}

impl Arity {
    /// Checks an argument count against this arity.
    pub fn check(&self, got: usize) -> (r: bool)
        ensures
            r == arity_accepts(*self, got as nat),
    {
        match *self {
            Arity::Exact(n) => got == n,
            Arity::Range(lo, hi) => lo <= got && got <= hi,
            Arity::Variadic => true,
        }
    }

    /// Describes this arity for error messages ("1", "1 to 3", "any").
    pub fn description(&self) -> (s: String)
        ensures
            s@ == arity_text(*self),
    {
        match *self {
            Arity::Exact(n) => u64_to_string(n as u64),
            Arity::Range(lo, hi) => {
                let mut s = u64_to_string(lo as u64);
                push_char(&mut s, ' ');
                push_char(&mut s, 't');
                push_char(&mut s, 'o');
                push_char(&mut s, ' ');
                let h = u64_to_string(hi as u64);
                s.append(h.as_str());
                assert(s@ =~= decimal_digits(lo as nat) + seq![' ', 't', 'o', ' '] + decimal_digits(hi as nat));
                s
            },
            Arity::Variadic => {
                let mut s = String::new();
                push_char(&mut s, 'a');
                push_char(&mut s, 'n');
                push_char(&mut s, 'y');
                assert(s@ =~= seq!['a', 'n', 'y']);
                s
            },
        }
    }
}

/// The builtin classes that can be called like constructors.
#[derive(Clone, Copy, Debug, PartialEq, Eq, Structural)]
pub enum BuiltinClassType {
    Range,
    List,
    Dict,
}

/// The name of a builtin class.
pub open spec fn class_type_name(t: BuiltinClassType) -> Seq<char> {
    match t {
        BuiltinClassType::Range => "range"@,
        BuiltinClassType::List => "list"@,
        BuiltinClassType::Dict => "dict"@,
    }
}

impl BuiltinClassType {
    /// The type's name as the language spells it.
    pub fn name(&self) -> (s: &'static str)
        ensures
            s@ == class_type_name(*self),
    {
        match self {
            BuiltinClassType::Range => "range",
            BuiltinClassType::List => "list",
            BuiltinClassType::Dict => "dict",
        }
    }
}

/// One builtin function: its name, its arity and the id the compiler emits.
#[derive(Clone, Copy, Debug)]
pub struct Builtin {
    pub name: &'static str,
    pub arity: Arity,
    pub builtin_id: u8,
}

impl Builtin {
    /// Checks an argument count against this builtin's arity.
    pub fn check_arity(&self, got: usize) -> (r: bool)
        ensures
            r == arity_accepts(self.arity, got as nat),
    {
        self.arity.check(got)
    }
}

/// The names of the registered builtins, in registry order.
pub open spec fn registry_names() -> Seq<Seq<char>> {
    seq!["print"@, "input"@, "int"@, "bool"@, "str"@, "len"@, "range"@, "float"@, "assert"@]
}

/// The arities of the registered builtins, in registry order.
pub open spec fn registry_arities() -> Seq<Arity> {
    seq![Arity::Variadic, Arity::Range(0, 1), Arity::Exact(1), Arity::Exact(1), Arity::Exact(1),
        Arity::Exact(1), Arity::Range(1, 3), Arity::Exact(1), Arity::Exact(1)]
}

/// The ids of the registered builtins, in registry order.
pub open spec fn registry_ids() -> Seq<u8> {
    seq![0u8, 1u8, 2u8, 3u8, 4u8, 5u8, 6u8, 7u8, 10u8]
}

/// Whether registry entry `i` has the given name and id.
pub open spec fn is_registry_entry_named(i: int, name: Seq<char>, id: u8) -> bool {
    &&& 0 <= i < 9
    &&& registry_names()[i] == name
    &&& registry_ids()[i] == id
}

/// Whether a builtin value is the registry entry at index `i`.
pub open spec fn is_registry_entry(b: Builtin, i: int) -> bool {
    &&& 0 <= i < 9
    &&& b.name@ == registry_names()[i]
    &&& b.arity == registry_arities()[i]
    &&& b.builtin_id == registry_ids()[i]
}

fn entry(name: &'static str, arity: Arity, builtin_id: u8) -> (b: Builtin)
    ensures
        b.name == name,
        b.arity == arity,
        b.builtin_id == builtin_id,
{
    Builtin { name, arity, builtin_id }
}

/// All registered builtins, in registry order.
pub fn all() -> (r: Vec<Builtin>)
    ensures
        r.len() == 9,
        forall|i: int| 0 <= i < 9 ==> is_registry_entry(#[trigger] r@[i], i),
{
    let mut v: Vec<Builtin> = Vec::new();
    v.push(entry("print", Arity::Variadic, BUILTIN_PRINT_ID));
    v.push(entry("input", Arity::Range(0, 1), BUILTIN_INPUT_ID));
    v.push(entry("int", Arity::Exact(1), BUILTIN_INT_ID));
    v.push(entry("bool", Arity::Exact(1), BUILTIN_BOOL_ID));
    v.push(entry("str", Arity::Exact(1), BUILTIN_STR_ID));
    v.push(entry("len", Arity::Exact(1), BUILTIN_LEN_ID));
    v.push(entry("range", Arity::Range(1, 3), BUILTIN_RANGE_ID));
    v.push(entry("float", Arity::Exact(1), BUILTIN_FLOAT_ID));
    v.push(entry("assert", Arity::Exact(1), BUILTIN_ASSERT_ID));
    v
}

/// Character-wise equality of two string slices.
pub fn str_eq(a: &str, b: &str) -> (r: bool)
    ensures
        r == (a@ == b@),
{
    let x: String = a.to_owned();
    let y: String = b.to_owned();
    x == y
}

/// Looks up a builtin by name.
pub fn lookup(name: &str) -> (r: Option<Builtin>)
    ensures
        r matches Some(b) ==> exists|i: int| is_registry_entry(b, i) && registry_names()[i] == name@,
        r is None ==> forall|i: int| 0 <= i < 9 ==> registry_names()[i] != name@,
{
    let reg = all();
    let mut k: usize = 0;
    while k < reg.len()
        invariant
            reg.len() == 9,
            forall|i: int| 0 <= i < 9 ==> is_registry_entry(#[trigger] reg@[i], i),
            k <= 9,
            forall|i: int| 0 <= i < k ==> registry_names()[i] != name@,
        decreases 9 - k,
    {
        if str_eq(reg[k].name, name) {
            assert(is_registry_entry(reg@[k as int], k as int));
            return Some(reg[k]);
        }
        assert(is_registry_entry(reg@[k as int], k as int));
        k = k + 1;
    }
    None
}

/// Looks up a builtin by the id the compiler emits for it.
pub fn lookup_by_id(id: u8) -> (r: Option<Builtin>)
    ensures
        r matches Some(b) ==> exists|i: int| is_registry_entry(b, i) && registry_ids()[i] == id,
        r is None ==> forall|i: int| 0 <= i < 9 ==> registry_ids()[i] != id,
{
    let reg = all();
    let mut k: usize = 0;
    while k < reg.len()
        invariant
            reg.len() == 9,
            forall|i: int| 0 <= i < 9 ==> is_registry_entry(#[trigger] reg@[i], i),
            k <= 9,
            forall|i: int| 0 <= i < k ==> registry_ids()[i] != id,
        decreases 9 - k,
    {
        assert(is_registry_entry(reg@[k as int], k as int));
        if reg[k].builtin_id == id {
            return Some(reg[k]);
        }
        k = k + 1;
    }
    None
}

} // verus!
