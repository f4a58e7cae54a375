//! The builtin functions a program calls by name: `print`, `int`, `bool`,
//! `str`, `len` and `assert`. Each takes its arguments as a vector and
//! gives a value or an error; `print` also writes a line.

use vstd::prelude::*;
use crate::runtime_io::RuntimeIo;
use crate::text::{decimal_digits, u64_to_string};
use crate::vm::bytecode::Value;
use crate::vm::machine::{Object, Vm, VmError, VmErrorKind, VmResult, err, shown};
use crate::vm::decimal::{float_int, float_literal};
use crate::vm::values::{float_text_trunc, parse_int, parse_int_spec, to_bool, to_bool_spec, trim, trim_spec};

verus! {

/// "{name}() takes exactly 1 argument ({n} given)".
pub open spec fn exactly_one_message(name: Seq<char>, n: nat) -> Seq<char> {
    name + "() takes exactly 1 argument ("@ + decimal_digits(n) + " given)"@
}

/// The error of a builtin of one argument that was given `n`.
pub open spec fn arity_one_error(name: Seq<char>, n: nat, r: VmResult<Value>) -> bool {
    r matches Err(e) && e.kind == (VmErrorKind::ArityError { expected: 1, got: n as usize })
        && e.message@ == exactly_one_message(name, n)
}

fn exactly_one(name: &str, n: usize) -> (e: VmError)
    ensures
        e.kind == (VmErrorKind::ArityError { expected: 1, got: n }),
        e.message@ == exactly_one_message(name@, n as nat),
{
    let mut m = name.to_owned();
    m.append("() takes exactly 1 argument (");
    let t = u64_to_string(n as u64);
    m.append(t.as_str());
    m.append(" given)");
    err(VmErrorKind::ArityError { expected: 1, got: n }, m)
}

/// The name of a value's type in messages.
pub open spec fn type_name_spec(heap: Seq<Object>, v: Value) -> Seq<char> {
    match v {
        Value::Int(_) => "int"@,
        Value::Bool(_) => "bool"@,
        Value::Float(_) => "float"@,
        Value::NoneVal => "NoneType"@,
        Value::Str(_) => "str"@,
        Value::Class(_) => "type"@,
        Value::BuiltinClass(_) => "type"@,
        Value::Ref(i) => if i < heap.len() {
            match heap[i as int] {
                Object::Instance { .. } => "object"@,
                Object::Range { .. } => "range"@,
                Object::List(_) => "list"@,
                Object::Dict(_) => "dict"@,
                Object::Closure { .. } => "function"@,
            }
        } else {
            "object"@
        },
    }
}

/// The values shown as `print` shows them, separated by spaces.
pub open spec fn print_text_spec(heap: Seq<Object>, args: Seq<Value>) -> Seq<char>
    decreases args.len(),
{
    if args.len() == 0 {
        Seq::empty()
    } else if args.len() == 1 {
        shown(heap, args[0])
    } else {
        print_text_spec(heap, args.drop_last()) + " "@ + shown(heap, args.last())
    }
}

/// What `int(..)` gives: an integer as it is, a boolean as 0 or 1, a float
/// truncated, a string by `parse_int_spec` after trimming whitespace; an
/// error for a string that does not parse, for None and for other values.
pub open spec fn int_call_spec(heap: Seq<Object>, args: Seq<Value>, r: VmResult<Value>) -> bool {
    if args.len() != 1 {
        arity_one_error("int"@, args.len(), r)
    } else {
        match args[0] {
            Value::Int(i) => r == Ok::<Value, VmError>(Value::Int(i)),
            Value::Bool(b) => r == Ok::<Value, VmError>(Value::Int(if b { 1 } else { 0 })),
            Value::Float(t) => r matches Ok(Value::Int(k)) && k >= 0
                && (float_literal(t@) ==> k == float_int(t@)),
            Value::Str(s) => match parse_int_spec(trim_spec(s@)) {
                Some(n) => r == Ok::<Value, VmError>(Value::Int(n as i64)),
                None => r matches Err(e) && e.kind == VmErrorKind::TypeError("int")
                    && e.message@ == "invalid literal for int() with base 10: '"@ + s@ + "'"@,
            },
            _ => r matches Err(e) && e.kind == VmErrorKind::TypeError("int")
                && e.message@ == "int() argument must be a string or a number, not '"@
                    + type_name_spec(heap, args[0]) + "'"@,
        }
    }
}

/// What `bool(..)` gives: the truthiness of its argument.
pub open spec fn bool_call_spec(args: Seq<Value>, r: VmResult<Value>) -> bool {
    if args.len() != 1 {
        arity_one_error("bool"@, args.len(), r)
    } else {
        r == Ok::<Value, VmError>(Value::Bool(to_bool_spec(args[0])))
    }
}

/// What `str(..)` gives: the text `print` would write for its argument.
pub open spec fn str_call_spec(heap: Seq<Object>, args: Seq<Value>, r: VmResult<Value>) -> bool {
    if args.len() != 1 {
        arity_one_error("str"@, args.len(), r)
    } else {
        r matches Ok(Value::Str(t)) && t@ == shown(heap, args[0])
    }
}

/// What `len(..)` gives: the number of characters of a string; an error
/// for any other value.
pub open spec fn len_call_spec(heap: Seq<Object>, args: Seq<Value>, r: VmResult<Value>) -> bool {
    if args.len() != 1 {
        arity_one_error("len"@, args.len(), r)
    } else {
        match args[0] {
            Value::Str(s) => if s@.len() <= i64::MAX {
                r == Ok::<Value, VmError>(Value::Int(s@.len() as i64))
            } else {
                r is Err
            },
            _ => r matches Err(e) && e.kind == VmErrorKind::TypeError("len")
                && e.message@ == "object of type '"@ + type_name_spec(heap, args[0]) + "' has no len()"@,
        }
    }
}

/// What `assert(..)` gives: None for a truthy argument, an assertion error
/// otherwise.
pub open spec fn assert_call_spec(args: Seq<Value>, r: VmResult<Value>) -> bool {
    if args.len() != 1 {
        arity_one_error("assert"@, args.len(), r)
    } else if to_bool_spec(args[0]) {
        r == Ok::<Value, VmError>(Value::NoneVal)
    } else {
        r matches Err(e) && e.kind == VmErrorKind::AssertionError
            && e.message@ == "AssertionError: assert failed"@
    }
}

/// What builtin `bid` gives on `args`, for the builtins that read no input
/// and make no object (print, int, bool, str, len, assert).
pub open spec fn pure_builtin_spec(heap: Seq<Object>, bid: u8, args: Seq<Value>, r: VmResult<Value>) -> bool {
    if bid == 0 {
        r == Ok::<Value, VmError>(Value::NoneVal)
    } else if bid == 2 {
        int_call_spec(heap, args, r)
    } else if bid == 3 {
        bool_call_spec(args, r)
    } else if bid == 4 {
        str_call_spec(heap, args, r)
    } else if bid == 5 {
        len_call_spec(heap, args, r)
    } else {
        assert_call_spec(args, r)
    }
}

/// `bool(..)`.
pub fn bool_call(args: &Vec<Value>) -> (r: VmResult<Value>)
    ensures
        bool_call_spec(args@, r),
{
    if args.len() != 1 {
        return Err(exactly_one("bool", args.len()));
    }
    Ok(Value::Bool(to_bool(&args[0])))
}

/// `assert(..)`.
pub fn assert_call(args: &Vec<Value>) -> (r: VmResult<Value>)
    ensures
        assert_call_spec(args@, r),
{
    if args.len() != 1 {
        return Err(exactly_one("assert", args.len()));
    }
    if !to_bool(&args[0]) {
        return Err(err(VmErrorKind::AssertionError, "AssertionError: assert failed".to_owned()));
    }
    Ok(Value::NoneVal)
}

impl Vm {
    /// The name of a value's type (see `type_name_spec`).
    pub fn type_label(&self, v: &Value) -> (s: String)
        ensures
            s@ == type_name_spec(self.heap@, *v),
    {
        match v {
            Value::Int(_) => "int".to_owned(),
            Value::Bool(_) => "bool".to_owned(),
            Value::Float(_) => "float".to_owned(),
            Value::NoneVal => "NoneType".to_owned(),
            Value::Str(_) => "str".to_owned(),
            Value::Class(_) => "type".to_owned(),
            Value::BuiltinClass(_) => "type".to_owned(),
            Value::Ref(i) => {
                if *i >= self.heap.len() {
                    return "object".to_owned();
                }
                match &self.heap[*i] {
                    Object::Instance { .. } => "object".to_owned(),
                    Object::Range { .. } => "range".to_owned(),
                    Object::List(_) => "list".to_owned(),
                    Object::Dict(_) => "dict".to_owned(),
                    Object::Closure { .. } => "function".to_owned(),
                }
            },
        }
    }

    /// The line `print` writes for its arguments (see `print_text_spec`).
    pub fn print_text(&self, args: &Vec<Value>) -> (s: String)
        ensures
            s@ == print_text_spec(self.heap@, args@),
    {
        let mut s = String::new();
        let mut k: usize = 0;
        while k < args.len()
            invariant
                k <= args.len(),
                s@ == print_text_spec(self.heap@, args@.subrange(0, k as int)),
            decreases args.len() - k,
        {
            assert(args@.subrange(0, k + 1).drop_last() =~= args@.subrange(0, k as int));
            if k > 0 {
                s.append(" ");
            }
            let t = self.display_value(&args[k]);
            s.append(t.as_str());
            k = k + 1;
        }
        assert(args@.subrange(0, k as int) =~= args@);
        s
    }

    /// `print(..)`: writes its arguments as `print_text` shows them, as one
    /// line, and gives None.
    pub fn print_call<IO: RuntimeIo>(&self, args: &Vec<Value>, io: &mut IO) -> (r: VmResult<Value>)
        ensures
            r == Ok::<Value, VmError>(Value::NoneVal),
    {
        let line = self.print_text(args);
        io.write_line(line.as_str());
        Ok(Value::NoneVal)
    }

    /// `int(..)`.
    pub fn int_call(&self, args: &Vec<Value>) -> (r: VmResult<Value>)
        ensures
            int_call_spec(self.heap@, args@, r),
    {
        if args.len() != 1 {
            return Err(exactly_one("int", args.len()));
        }
        match &args[0] {
            Value::Int(i) => Ok(Value::Int(*i)),
            Value::Bool(b) => Ok(Value::Int(if *b { 1 } else { 0 })),
            Value::Float(t) => Ok(Value::Int(float_text_trunc(t.as_str()))),
            Value::Str(s) => {
                let t = trim(s.as_str());
                match parse_int(t.as_str()) {
                    Some(n) => Ok(Value::Int(n)),
                    None => {
                        let mut m = "invalid literal for int() with base 10: '".to_owned();
                        m.append(s.as_str());
                        m.append("'");
                        Err(err(VmErrorKind::TypeError("int"), m))
                    },
                }
            },
            _ => {
                let mut m = "int() argument must be a string or a number, not '".to_owned();
                let name = self.type_label(&args[0]);
                m.append(name.as_str());
                m.append("'");
                Err(err(VmErrorKind::TypeError("int"), m))
            },
        }
    }

    /// `str(..)`.
    pub fn str_call(&self, args: &Vec<Value>) -> (r: VmResult<Value>)
        ensures
            str_call_spec(self.heap@, args@, r),
    {
        if args.len() != 1 {
            return Err(exactly_one("str", args.len()));
        }
        Ok(Value::Str(self.display_value(&args[0])))
    }

    /// `len(..)`.
    pub fn len_call(&self, args: &Vec<Value>) -> (r: VmResult<Value>)
        ensures
            len_call_spec(self.heap@, args@, r),
    {
        if args.len() != 1 {
            return Err(exactly_one("len", args.len()));
        }
        match &args[0] {
            Value::Str(t) => {
                let n = t.unicode_len();
                if (n as u64) > 0x7fff_ffff_ffff_ffffu64 {
                    return Err(err(VmErrorKind::TypeError("len"), "string too long".to_owned()));
                }
                Ok(Value::Int(n as i64))
            },
            _ => {
                let mut m = "object of type '".to_owned();
                let name = self.type_label(&args[0]);
                m.append(name.as_str());
                m.append("' has no len()");
                Err(err(VmErrorKind::TypeError("len"), m))
            },
        }
    }

    /// Builtin `bid` of those that read no input and make no object
    /// (print, int, bool, str, len, assert), on `args`.
    pub fn pure_builtin<IO: RuntimeIo>(&self, bid: u8, args: &Vec<Value>, io: &mut IO) -> (r: VmResult<Value>)
        requires
            bid == 0 || bid == 2 || bid == 3 || bid == 4 || bid == 5 || bid == 10,
        ensures
            pure_builtin_spec(self.heap@, bid, args@, r),
    {
        if bid == 0 {
            self.print_call(args, io)
        } else if bid == 2 {
            self.int_call(args)
        } else if bid == 3 {
            bool_call(args)
        } else if bid == 4 {
            self.str_call(args)
        } else if bid == 5 {
            self.len_call(args)
        } else {
            assert_call(args)
        }
    }
}

} // verus!
