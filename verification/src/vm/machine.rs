//! The stack machine that runs a module.

use vstd::prelude::*;
use crate::builtins::{Arity, BuiltinClassType, arity_accepts, str_eq};
use crate::runtime_io::{BufferIo, ReadResult, RuntimeIo};
use crate::text::{decimal_digits, int_text, i64_to_string, u64_to_string};
use crate::vm::bytecode::{FunctionCode, Instruction, MethodImpl, Module, NativeMethod, Value};
use crate::vm::native::NativeError;
use crate::vm::values::{clone_value, display_plain, display_plain_value, eq_spec, eq_vals, str_lt, text_lt, to_bool, to_bool_spec, trim};
use crate::vm::calls::{pure_builtin_spec, type_name_spec};

verus! {

#[derive(Debug, Clone, PartialEq, Eq)]
pub enum VmErrorKind {
    TypeError(&'static str),
    ZeroDivision,
    ArityError { expected: usize, got: usize },
    UndefinedGlobal(u16),
    StackUnderflow,
    StackOverflow,
    AssertionError,
}

#[derive(Debug)]
pub struct VmError {
    pub kind: VmErrorKind,
    pub message: String,
}

pub type VmResult<T> = Result<T, VmError>;

impl VmErrorKind {
    /// The kind as Rust's `Debug` prints it, e.g. `ArityError { expected: 1, got: 2 }`.
    pub fn debug_text(&self) -> (s: String)
        ensures
            self is ZeroDivision ==> s@ == "ZeroDivision"@,
            self matches VmErrorKind::TypeError(t) ==> s@ == "TypeError(\""@ + t@ + "\")"@,
            self matches VmErrorKind::UndefinedGlobal(g) ==> s@ == "UndefinedGlobal("@ + decimal_digits(g as nat) + ")"@,
            self matches VmErrorKind::ArityError { expected, got } ==> s@ == "ArityError { expected: "@
                + decimal_digits(expected as nat) + ", got: "@ + decimal_digits(got as nat) + " }"@,
            self is StackUnderflow ==> s@ == "StackUnderflow"@,
            self is StackOverflow ==> s@ == "StackOverflow"@,
            self is AssertionError ==> s@ == "AssertionError"@,
    {
        match self {
            VmErrorKind::TypeError(t) => {
                let mut s = "TypeError(\"".to_owned();
                s.append(t);
                s.append("\")");
                s
            },
            VmErrorKind::ZeroDivision => "ZeroDivision".to_owned(),
            VmErrorKind::ArityError { expected, got } => {
                let mut s = "ArityError { expected: ".to_owned();
                let e = u64_to_string(*expected as u64);
                s.append(e.as_str());
                s.append(", got: ");
                let g = u64_to_string(*got as u64);
                s.append(g.as_str());
                s.append(" }");
                s
            },
            VmErrorKind::UndefinedGlobal(g) => {
                let mut s = "UndefinedGlobal(".to_owned();
                let t = u64_to_string(*g as u64);
                s.append(t.as_str());
                s.append(")");
                s
            },
            VmErrorKind::StackUnderflow => "StackUnderflow".to_owned(),
            VmErrorKind::StackOverflow => "StackOverflow".to_owned(),
            VmErrorKind::AssertionError => "AssertionError".to_owned(),
        }
    }
}

/// Where an execution stands.
#[derive(Debug, Clone, Copy, PartialEq, Eq, Structural)]
pub enum VmState {
    Running,
    WaitingForInput,
    Finished,
    Error,
}

/// An error of the given kind and message.
pub fn err(kind: VmErrorKind, message: String) -> (e: VmError)
    ensures
        e.kind == kind,
        e.message == message,
{
    VmError { kind, message }
}

/// A call in progress.
#[derive(Debug, Clone)]
pub struct Frame {
    pub ip: usize,
    pub func_id: usize,
    pub ret_stack_size: usize,
    pub locals: Vec<Value>,
}

/// An object in the heap.
#[derive(Debug, Clone)]
pub enum Object {
    Instance { class_id: u16, attrs: Vec<(String, Value)> },
    Range { current: i64, stop: i64, step: i64 },
    List(Vec<Value>),
    Dict(Vec<(Value, Value)>),
    Closure { func_id: u16, captures: Vec<Value> },
}

/// What executing one instruction leads to.
#[derive(Debug)]
pub enum Flow {
    Continue,
    WaitingForInput,
    Done(Option<Value>),
}

/// Whether an instruction refers only to entries the module has.
pub open spec fn instr_wf(m: Module, ins: Instruction) -> bool {
    match ins {
        Instruction::ConstStr(i) => i < m.string_pool@.len(),
        Instruction::LoadConst(i) => i < m.consts@.len(),
        Instruction::Call(f, _) => f < m.functions@.len(),
        Instruction::CallMethod(s, _) => s < m.symbols@.len(),
        Instruction::LoadAttr(s) => s < m.symbols@.len(),
        Instruction::StoreAttr(s) => s < m.symbols@.len(),
        Instruction::MakeClosure(f, _) => f < m.functions@.len(),
        _ => true,
    }
}

/// A module whose instructions refer only to entries it has, and whose
/// classes' methods are functions it has.
pub open spec fn module_wf(m: Module) -> bool {
    &&& forall|f: int, k: int| 0 <= f < m.functions@.len() && 0 <= k < m.functions@[f].code@.len()
        ==> #[trigger] instr_wf(m, m.functions@[f].code@[k])
    &&& forall|c: int, j: int| 0 <= c < m.classes@.len() && 0 <= j < m.classes@[c].methods@.len()
        ==> (#[trigger] m.classes@[c].methods@[j]).1 < m.functions@.len()
}

/// Two modules with the same program: everything but the globals agrees.
pub open spec fn same_program(a: Module, b: Module) -> bool {
    &&& a.consts == b.consts
    &&& a.string_pool == b.string_pool
    &&& a.symbols == b.symbols
    &&& a.functions == b.functions
    &&& a.classes == b.classes
    &&& a.types == b.types
}

/// Whether every frame runs a function of a module with `nfun` functions.
pub open spec fn frames_ok(frames: Seq<Frame>, nfun: nat) -> bool {
    forall|i: int| 0 <= i < frames.len() ==> (#[trigger] frames[i]).func_id < nfun
}

/// The machine: value stack, call frames and heap.
pub struct Vm {
    pub stack: Vec<Value>,
    pub frames: Vec<Frame>,
    pub heap: Vec<Object>,
    pub max_stack: usize,
    pub max_frames: usize,
    pub state: VmState,
    /// What `run` printed.
    pub output: String,
}

/// An instruction pointer moved by a relative offset, wrapping around.
pub open spec fn jump_target(ip: usize, off: i32) -> usize {
    if off >= 0 { ip.wrapping_add(off as usize) } else { ip.wrapping_sub((-(off as int)) as usize) }
}

/// Moves an instruction pointer by a relative offset, wrapping around.
pub fn jump_rel(ip: &mut usize, off: i32)
    ensures
        *final(ip) == jump_target(*old(ip), off),
        off >= 0 ==> *final(ip) == old(ip).wrapping_add(off as usize),
        off < 0 ==> *final(ip) == old(ip).wrapping_sub((-(off as int)) as usize),
{
    if off >= 0 {
        *ip = ip.wrapping_add(off as usize);
    } else {
        let back: i64 = -(off as i64);
        *ip = ip.wrapping_sub(back as usize);
    }
}

/// The name of a method in a message.
fn method_message(prefix: &str, a: &str, mid: &str, b: &str, suffix: &str) -> (m: String)
    ensures
        m@ == prefix@ + a@ + mid@ + b@ + suffix@,
{
    let mut m = prefix.to_owned();
    m.append(a);
    m.append(mid);
    m.append(b);
    m.append(suffix);
    m
}

fn count_message(prefix: &str, n: usize, suffix: &str) -> (m: String)
    ensures
        m@ == prefix@ + decimal_digits(n as nat) + suffix@,
{
    let mut m = prefix.to_owned();
    let t = u64_to_string(n as u64);
    m.append(t.as_str());
    m.append(suffix);
    m
}

/// Values shown as `display_plain` does, separated by ", ".
pub open spec fn joined_plain(items: Seq<Value>) -> Seq<char>
    decreases items.len(),
{
    if items.len() == 0 {
        Seq::empty()
    } else if items.len() == 1 {
        display_plain(items[0])
    } else {
        joined_plain(items.drop_last()) + ", "@ + display_plain(items.last())
    }
}

/// Key-value pairs shown as `key: value`, separated by ", ".
pub open spec fn joined_pairs(pairs: Seq<(Value, Value)>) -> Seq<char>
    decreases pairs.len(),
{
    if pairs.len() == 0 {
        Seq::empty()
    } else {
        let last = display_plain(pairs.last().0) + ": "@ + display_plain(pairs.last().1);
        if pairs.len() == 1 { last } else { joined_pairs(pairs.drop_last()) + ", "@ + last }
    }
}

/// The text `print` writes for a value: values outside the heap as
/// `display_plain`, an instance by its class id, a list or dict by its
/// items, a range or closure by its kind.
pub open spec fn shown(heap: Seq<Object>, v: Value) -> Seq<char> {
    match v {
        Value::Ref(i) => if i < heap.len() {
            match heap[i as int] {
                Object::Instance { class_id, .. } => "<instance of class "@ + int_text(class_id as int) + ">"@,
                Object::Range { .. } => "<range object>"@,
                Object::List(items) => "["@ + joined_plain(items@) + "]"@,
                Object::Dict(pairs) => "{"@ + joined_pairs(pairs@) + "}"@,
                Object::Closure { .. } => "<function>"@,
            }
        } else {
            "<object>"@
        },
        _ => display_plain(v),
    }
}

/// The type id of a value for method lookup.
pub open spec fn type_id_spec(v: Value, heap: Seq<Object>) -> int {
    match v {
        Value::Int(_) => 0,
        Value::Bool(_) => 1,
        Value::Str(_) => 2,
        Value::NoneVal => 3,
        Value::Float(_) => 7,
        Value::Class(id) => 100 + id,
        Value::BuiltinClass(_) => 4,
        Value::Ref(i) => if 0 <= i < heap.len() {
            match heap[i as int] {
                Object::Instance { class_id, .. } => 100 + class_id,
                Object::Range { .. } => 4,
                Object::List(_) => 5,
                Object::Dict(_) => 6,
                Object::Closure { .. } => 8,
            }
        } else {
            8
        },
    }
}

impl Vm {
    /// A machine with empty stacks, room for 1024 values and 256 frames.
    pub fn new() -> (vm: Self)
        ensures
            vm.stack@.len() == 0,
            vm.frames@.len() == 0,
            vm.heap@.len() == 0,
            vm.max_stack == 1024,
            vm.max_frames == 256,
            vm.state == VmState::Running,
    {
        Vm {
            stack: Vec::new(),
            frames: Vec::new(),
            heap: Vec::new(),
            max_stack: 1024,
            max_frames: 256,
            state: VmState::Running,
            output: String::new(),
        }
    }

    pub fn get_state(&self) -> (s: VmState)
        ensures
            s == self.state,
    {
        self.state
    }

    /// Leaves the waiting state once input has been provided.
    pub fn resume(&mut self)
        ensures
            old(self).state == VmState::WaitingForInput ==> final(self).state == VmState::Running,
            old(self).state != VmState::WaitingForInput ==> final(self).state == old(self).state,
            final(self).stack == old(self).stack,
            final(self).frames == old(self).frames,
            final(self).heap == old(self).heap,
    {
        if self.state == VmState::WaitingForInput {
            self.state = VmState::Running;
        }
    }

    pub fn is_waiting_for_input(&self) -> (r: bool)
        ensures
            r == (self.state == VmState::WaitingForInput),
    {
        self.state == VmState::WaitingForInput
    }

    pub fn is_finished(&self) -> (r: bool)
        ensures
            r == (self.state == VmState::Finished || self.frames@.len() == 0),
    {
        self.state == VmState::Finished || self.frames.len() == 0
    }

    /// Pushes a value; an overflow error at `max_stack` values.
    pub fn push(&mut self, v: Value) -> (r: VmResult<()>)
        ensures
            r is Ok <==> old(self).stack@.len() < old(self).max_stack,
            r is Ok ==> final(self).stack@ == old(self).stack@.push(v),
            r matches Err(e) ==> e.kind == VmErrorKind::StackOverflow && final(self).stack == old(self).stack,
            final(self).frames == old(self).frames,
            final(self).heap == old(self).heap,
            final(self).max_stack == old(self).max_stack,
            final(self).max_frames == old(self).max_frames,
            final(self).state == old(self).state,
    {
        if self.stack.len() >= self.max_stack {
            return Err(err(VmErrorKind::StackOverflow, "stack overflow".to_owned()));
        }
        self.stack.push(v);
        Ok(())
    }

    /// Pops the top value; an underflow error on an empty stack.
    pub fn pop(&mut self) -> (r: VmResult<Value>)
        ensures
            r is Ok <==> old(self).stack@.len() > 0,
            r matches Ok(v) ==> v == old(self).stack@.last() && final(self).stack@ == old(self).stack@.drop_last(),
            r matches Err(e) ==> e.kind == VmErrorKind::StackUnderflow && final(self).stack == old(self).stack,
            final(self).frames == old(self).frames,
            final(self).heap == old(self).heap,
            final(self).max_stack == old(self).max_stack,
            final(self).max_frames == old(self).max_frames,
            final(self).state == old(self).state,
    {
        if self.stack.len() == 0 {
            return Err(err(VmErrorKind::StackUnderflow, "stack underflow".to_owned()));
        }
        Ok(self.stack.pop().unwrap())
    }

    /// Pops an integer.
    pub fn pop_int(&mut self) -> (r: VmResult<i64>)
        ensures
            r matches Ok(i) ==> old(self).stack@.len() > 0 && old(self).stack@.last() == Value::Int(i)
                && final(self).stack@ == old(self).stack@.drop_last(),
            r is Err ==> !(old(self).stack@.len() > 0 && old(self).stack@.last() is Int),
            final(self).frames == old(self).frames,
            final(self).heap == old(self).heap,
            final(self).max_stack == old(self).max_stack,
            final(self).max_frames == old(self).max_frames,
            final(self).state == old(self).state,
    {
        match self.pop()? {
            Value::Int(i) => Ok(i),
            _ => Err(err(VmErrorKind::TypeError("int"), "expected Int".to_owned())),
        }
    }

    /// Pops a condition: a boolean, or an integer (true when not 0).
    pub fn pop_bool(&mut self) -> (r: VmResult<bool>)
        ensures
            r matches Ok(b) ==> old(self).stack@.len() > 0 && final(self).stack@ == old(self).stack@.drop_last()
                && (old(self).stack@.last() == Value::Bool(b)
                    || (old(self).stack@.last() matches Value::Int(i) && b == (i != 0))),
            r is Err ==> !(old(self).stack@.len() > 0 && (old(self).stack@.last() is Int || old(self).stack@.last() is Bool)),
            final(self).frames == old(self).frames,
            final(self).heap == old(self).heap,
            final(self).max_stack == old(self).max_stack,
            final(self).max_frames == old(self).max_frames,
            final(self).state == old(self).state,
    {
        match self.pop()? {
            Value::Bool(b) => Ok(b),
            Value::Int(i) => Ok(i != 0),
            _ => Err(err(VmErrorKind::TypeError("bool"), "expected Bool".to_owned())),
        }
    }

    /// Enters function `func_id` with the top `argc` values as its first
    /// locals and then the captured values.
    pub fn enter_func(&mut self, module: &Module, func_id: usize, argc: usize, captures: Vec<Value>) -> (r: VmResult<()>)
        requires
            func_id < module.functions@.len(),
        ensures
            r is Ok ==> final(self).frames@.len() == old(self).frames@.len() + 1
                && final(self).frames@.drop_last() == old(self).frames@
                && final(self).frames@.last().func_id == func_id
                && final(self).frames@.last().ip == 0
                && final(self).frames@.last().ret_stack_size == old(self).stack@.len() - argc
                && final(self).stack@ == old(self).stack@.subrange(0, old(self).stack@.len() - argc),
            r matches Err(e) ==> (old(self).frames@.len() >= old(self).max_frames ==> e.kind == VmErrorKind::StackOverflow),
            old(self).frames@.len() < old(self).max_frames && argc <= old(self).stack@.len()
                && argc + captures@.len() <= usize::MAX ==> r is Ok,
            r is Ok && argc == 0 && captures@.len() == 0 ==> final(self).frames@.last().locals@
                == Seq::new(module.functions@[func_id as int].num_locals as nat, |i: int| Value::NoneVal),
            r is Ok && captures@.len() == 0 ==> final(self).frames@.last().locals@
                == call_locals(old(self).stack@.subrange(old(self).stack@.len() - argc, old(self).stack@.len() as int),
                    module.functions@[func_id as int].num_locals as nat),
            r is Err ==> final(self).frames == old(self).frames,
            r is Ok ==> old(self).frames@.len() < old(self).max_frames && argc <= old(self).stack@.len(),
            final(self).heap == old(self).heap,
            final(self).max_stack == old(self).max_stack,
            final(self).max_frames == old(self).max_frames,
            final(self).state == old(self).state,
    {
        if self.frames.len() >= self.max_frames {
            return Err(err(VmErrorKind::StackOverflow, "frame overflow".to_owned()));
        }
        if self.stack.len() < argc {
            return Err(err(VmErrorKind::StackUnderflow, "stack underflow".to_owned()));
        }
        let num_locals = module.functions[func_id].num_locals as usize;
        let ncap = captures.len();
        if argc > usize::MAX - ncap {
            return Err(err(VmErrorKind::StackOverflow, "frame overflow".to_owned()));
        }
        let needed = argc + ncap;
        let actual = if num_locals > needed { num_locals } else { needed };
        let base = self.stack.len() - argc;
        let mut locals: Vec<Value> = Vec::new();
        let mut j: usize = base;
        while j < self.stack.len()
            invariant
                base <= j <= self.stack@.len(),
                locals@ == self.stack@.subrange(base as int, j as int),
            decreases self.stack@.len() - j,
        {
            locals.push(clone_value(&self.stack[j]));
            j = j + 1;
            assert(locals@ =~= self.stack@.subrange(base as int, j as int));
        }
        let ghost args = locals@;
        let mut c: usize = 0;
        while c < ncap
            invariant
                c <= ncap,
                ncap == captures@.len(),
                locals@.len() == argc + c,
                ncap == 0 ==> locals@ == args,
                args.len() == argc,
            decreases ncap - c,
        {
            locals.push(clone_value(&captures[c]));
            c = c + 1;
        }
        assert(argc == 0 && ncap == 0 ==> locals@.len() == 0);
        while locals.len() < actual
            invariant
                locals@.len() <= actual,
                argc == 0 && ncap == 0 ==> actual == num_locals,
                argc == 0 && ncap == 0 ==> forall|k: int| 0 <= k < locals@.len() ==> locals@[k] == Value::NoneVal,
                ncap == 0 ==> locals@.len() >= argc && locals@.subrange(0, argc as int) == args
                    && forall|k: int| argc <= k < locals@.len() ==> locals@[k] == Value::NoneVal,
            decreases actual - locals@.len(),
        {
            locals.push(Value::NoneVal);
            assert(ncap == 0 ==> locals@.subrange(0, argc as int) =~= locals@.drop_last().subrange(0, argc as int));
        }
        assert(ncap == 0 ==> locals@ =~= call_locals(args, num_locals as nat));
        assert(argc == 0 && ncap == 0 ==> locals@ =~= Seq::new(num_locals as nat, |i: int| Value::NoneVal));
        self.stack.truncate(base);
        self.frames.push(Frame { ip: 0, func_id, ret_stack_size: base, locals });
        Ok(())
    }

    /// Leaves the current frame: its return value is the top value above the
    /// frame's base, if any; the stack is cut back to the base.
    pub fn leave_frame(&mut self) -> (r: Option<Value>)
        requires
            old(self).frames@.len() > 0,
        ensures
            final(self).frames@ == old(self).frames@.drop_last(),
            ({
                let base = old(self).frames@.last().ret_stack_size;
                &&& old(self).stack@.len() > base ==> r == Some(old(self).stack@.last())
                &&& old(self).stack@.len() <= base ==> r is None
                &&& final(self).stack@ == if old(self).stack@.len() > base {
                        old(self).stack@.subrange(0, base as int)
                    } else {
                        old(self).stack@
                    }
            }),
            final(self).heap == old(self).heap,
            final(self).max_stack == old(self).max_stack,
            final(self).max_frames == old(self).max_frames,
            final(self).state == old(self).state,
    {
        let base = self.frames[self.frames.len() - 1].ret_stack_size;
        let ret = if self.stack.len() > base { self.stack.pop() } else { None };
        if self.stack.len() > base {
            self.stack.truncate(base);
        }
        self.frames.pop();
        ret
    }

    /// The local `ix` of the current frame.
    pub fn get_local(&self, ix: u16) -> (r: VmResult<Value>)
        ensures
            r matches Ok(v) ==> self.frames@.len() > 0 && ix < self.frames@.last().locals@.len()
                && v == self.frames@.last().locals@[ix as int],
            r is Err ==> !(self.frames@.len() > 0 && ix < self.frames@.last().locals@.len()),
    {
        if self.frames.len() == 0 {
            return Err(err(VmErrorKind::StackUnderflow, "no frame".to_owned()));
        }
        let f = &self.frames[self.frames.len() - 1];
        if (ix as usize) < f.locals.len() {
            Ok(clone_value(&f.locals[ix as usize]))
        } else {
            Err(err(VmErrorKind::UndefinedGlobal(ix), count_message("invalid local index ", ix as usize, "")))
        }
    }

    /// Sets the local `ix` of the current frame.
    pub fn set_local(&mut self, ix: u16, v: Value) -> (r: VmResult<()>)
        ensures
            r is Ok <==> old(self).frames@.len() > 0 && ix < old(self).frames@.last().locals@.len(),
            r is Ok ==> final(self).frames@.len() == old(self).frames@.len()
                && final(self).frames@.drop_last() == old(self).frames@.drop_last()
                && final(self).frames@.last().locals@ == old(self).frames@.last().locals@.update(ix as int, v)
                && final(self).frames@.last().func_id == old(self).frames@.last().func_id
                && final(self).frames@.last().ip == old(self).frames@.last().ip
                && final(self).frames@.last().ret_stack_size == old(self).frames@.last().ret_stack_size,
            r is Err ==> final(self).frames == old(self).frames,
            final(self).stack == old(self).stack,
            final(self).heap == old(self).heap,
            final(self).max_stack == old(self).max_stack,
            final(self).max_frames == old(self).max_frames,
            final(self).state == old(self).state,
    {
        if self.frames.len() == 0 {
            return Err(err(VmErrorKind::StackUnderflow, "no frame".to_owned()));
        }
        if (ix as usize) >= self.frames[self.frames.len() - 1].locals.len() {
            return Err(err(VmErrorKind::UndefinedGlobal(ix), count_message("invalid local index ", ix as usize, "")));
        }
        let mut f = self.frames.pop().unwrap();
        f.locals.set(ix as usize, v);
        self.frames.push(f);
        assert(self.frames@.drop_last() =~= old(self).frames@.drop_last());
        Ok(())
    }

    /// Moves the current frame's instruction pointer.
    pub fn add_ip_rel(&mut self, off: i32)
        ensures
            final(self).frames@.len() == old(self).frames@.len(),
            old(self).frames@.len() > 0 ==> final(self).frames@.drop_last() == old(self).frames@.drop_last()
                && final(self).frames@.last().func_id == old(self).frames@.last().func_id
                && final(self).frames@.last().ret_stack_size == old(self).frames@.last().ret_stack_size
                && final(self).frames@.last().locals == old(self).frames@.last().locals
                && final(self).frames@.last().ip == jump_target(old(self).frames@.last().ip, off),
            final(self).stack == old(self).stack,
            final(self).heap == old(self).heap,
            final(self).max_stack == old(self).max_stack,
            final(self).max_frames == old(self).max_frames,
            final(self).state == old(self).state,
    {
        if self.frames.len() > 0 {
            let mut f = self.frames.pop().unwrap();
            jump_rel(&mut f.ip, off);
            self.frames.push(f);
            assert(self.frames@.drop_last() =~= old(self).frames@.drop_last());
        }
    }

    /// Sets the current frame's instruction pointer.
    fn set_ip(&mut self, ip: usize)
        ensures
            final(self).frames@.len() == old(self).frames@.len(),
            old(self).frames@.len() > 0 ==> final(self).frames@.drop_last() == old(self).frames@.drop_last()
                && final(self).frames@.last().locals == old(self).frames@.last().locals
                && final(self).frames@.last().func_id == old(self).frames@.last().func_id
                && final(self).frames@.last().ip == ip
                && final(self).frames@.last().ret_stack_size == old(self).frames@.last().ret_stack_size,
            final(self).stack == old(self).stack,
            final(self).heap == old(self).heap,
            final(self).max_stack == old(self).max_stack,
            final(self).max_frames == old(self).max_frames,
            final(self).state == old(self).state,
    {
        if self.frames.len() > 0 {
            let mut f = self.frames.pop().unwrap();
            f.ip = ip;
            self.frames.push(f);
            assert(self.frames@.drop_last() =~= old(self).frames@.drop_last());
        }
    }

    /// Puts an object in the heap and refers to it.
    fn new_object(&mut self, obj: Object) -> (v: Value)
        ensures
            final(self).heap@ == old(self).heap@.push(obj),
            v == Value::Ref(old(self).heap@.len() as usize),
            final(self).stack == old(self).stack,
            final(self).frames == old(self).frames,
            final(self).max_stack == old(self).max_stack,
            final(self).max_frames == old(self).max_frames,
            final(self).state == old(self).state,
    {
        let i = self.heap.len();
        self.heap.push(obj);
        Value::Ref(i)
    }

    /// The text `print` writes for a value (see `shown`).
    pub fn display_value(&self, v: &Value) -> (s: String)
        ensures
            s@ == shown(self.heap@, *v),
    {
        match v {
            Value::Ref(i) => {
                if *i >= self.heap.len() {
                    return "<object>".to_owned();
                }
                match &self.heap[*i] {
                    Object::Instance { class_id, .. } => {
                        let mut s = "<instance of class ".to_owned();
                        let n = i64_to_string(*class_id as i64);
                        s.append(n.as_str());
                        s.append(">");
                        s
                    },
                    Object::Range { .. } => "<range object>".to_owned(),
                    Object::List(items) => {
                        let mut s = "[".to_owned();
                        let mut k: usize = 0;
                        while k < items.len()
                            invariant
                                k <= items.len(),
                                s@ == "["@ + joined_plain(items@.subrange(0, k as int)),
                            decreases items.len() - k,
                        {
                            assert(items@.subrange(0, k + 1).drop_last() =~= items@.subrange(0, k as int));
                            if k > 0 {
                                s.append(", ");
                            }
                            let t = display_plain_value(&items[k]);
                            s.append(t.as_str());
                            k = k + 1;
                        }
                        assert(items@.subrange(0, k as int) =~= items@);
                        s.append("]");
                        s
                    },
                    Object::Dict(pairs) => {
                        let mut s = "{".to_owned();
                        let mut k: usize = 0;
                        while k < pairs.len()
                            invariant
                                k <= pairs.len(),
                                s@ == "{"@ + joined_pairs(pairs@.subrange(0, k as int)),
                            decreases pairs.len() - k,
                        {
                            assert(pairs@.subrange(0, k + 1).drop_last() =~= pairs@.subrange(0, k as int));
                            if k > 0 {
                                s.append(", ");
                            }
                            let a = display_plain_value(&pairs[k].0);
                            s.append(a.as_str());
                            s.append(": ");
                            let b = display_plain_value(&pairs[k].1);
                            s.append(b.as_str());
                            k = k + 1;
                        }
                        assert(pairs@.subrange(0, k as int) =~= pairs@);
                        s.append("}");
                        s
                    },
                    Object::Closure { .. } => "<function>".to_owned(),
                }
            },
            _ => display_plain_value(v),
        }
    }

    /// The type id by which methods of a value are looked up.
    pub fn type_id(&self, v: &Value) -> (r: u64)
        ensures
            r as int == type_id_spec(*v, self.heap@),
    {
        match v {
            Value::Int(_) => 0,
            Value::Bool(_) => 1,
            Value::Str(_) => 2,
            Value::NoneVal => 3,
            Value::Float(_) => 7,
            Value::Class(id) => 100 + *id as u64,
            Value::BuiltinClass(_) => 4,
            Value::Ref(i) => {
                if *i < self.heap.len() {
                    match &self.heap[*i] {
                        Object::Instance { class_id, .. } => 100 + *class_id as u64,
                        Object::Range { .. } => 4,
                        Object::List(_) => 5,
                        Object::Dict(_) => 6,
                        Object::Closure { .. } => 8,
                    }
                } else {
                    8
                }
            },
        }
    }
}

/// A copy of an instruction.
pub fn clone_instr(i: &Instruction) -> (r: Instruction)
    ensures
        r == *i,
{
    match i {
        Instruction::ConstI64(v) => Instruction::ConstI64(*v),
        Instruction::ConstF64(t) => Instruction::ConstF64(t.clone()),
        Instruction::ConstStr(v) => Instruction::ConstStr(*v),
        Instruction::LoadConst(v) => Instruction::LoadConst(*v),
        Instruction::True => Instruction::True,
        Instruction::False => Instruction::False,
        Instruction::PushNone => Instruction::PushNone,
        Instruction::Pop => Instruction::Pop,
        Instruction::LoadLocal(v) => Instruction::LoadLocal(*v),
        Instruction::StoreLocal(v) => Instruction::StoreLocal(*v),
        Instruction::LoadGlobal(v) => Instruction::LoadGlobal(*v),
        Instruction::StoreGlobal(v) => Instruction::StoreGlobal(*v),
        Instruction::Add => Instruction::Add,
        Instruction::Sub => Instruction::Sub,
        Instruction::Mul => Instruction::Mul,
        Instruction::Div => Instruction::Div,
        Instruction::TrueDiv => Instruction::TrueDiv,
        Instruction::Mod => Instruction::Mod,
        Instruction::Neg => Instruction::Neg,
        Instruction::Pos => Instruction::Pos,
        Instruction::Eq => Instruction::Eq,
        Instruction::Ne => Instruction::Ne,
        Instruction::Lt => Instruction::Lt,
        Instruction::Le => Instruction::Le,
        Instruction::Gt => Instruction::Gt,
        Instruction::Ge => Instruction::Ge,
        Instruction::Not => Instruction::Not,
        Instruction::Jump(v) => Instruction::Jump(*v),
        Instruction::JumpIfFalse(v) => Instruction::JumpIfFalse(*v),
        Instruction::JumpIfTrue(v) => Instruction::JumpIfTrue(*v),
        Instruction::Call(a, b) => Instruction::Call(*a, *b),
        Instruction::CallBuiltin(a, b) => Instruction::CallBuiltin(*a, *b),
        Instruction::Return => Instruction::Return,
        Instruction::CallValue(v) => Instruction::CallValue(*v),
        Instruction::CallMethod(a, b) => Instruction::CallMethod(*a, *b),
        Instruction::LoadAttr(v) => Instruction::LoadAttr(*v),
        Instruction::StoreAttr(v) => Instruction::StoreAttr(*v),
        Instruction::BuildList(v) => Instruction::BuildList(*v),
        Instruction::BuildDict(v) => Instruction::BuildDict(*v),
        Instruction::LoadIndex => Instruction::LoadIndex,
        Instruction::StoreIndex => Instruction::StoreIndex,
        Instruction::MakeClosure(a, b) => Instruction::MakeClosure(*a, *b),
    }
}

/// Integer division as `i64::wrapping_div` computes it: truncating, and
/// `i64::MIN / -1` wraps to `i64::MIN`.
pub open spec fn div_spec(a: i64, b: i64) -> i64 {
    match a.checked_div(b) {
        Some(q) => q,
        None => i64::MIN,
    }
}

/// The remainder as `i64::wrapping_rem` computes it: its sign follows the
/// dividend, and `i64::MIN % -1` is 0.
pub open spec fn rem_spec(a: i64, b: i64) -> i64 {
    match a.checked_rem(b) {
        Some(q) => q,
        None => 0,
    }
}

/// Negation as `i64::wrapping_neg` computes it.
pub open spec fn neg_spec(a: i64) -> i64 {
    if a == i64::MIN { i64::MIN } else { (-a) as i64 }
}

fn int_div(a: i64, b: i64) -> (r: i64)
    requires
        b != 0,
    ensures
        r == div_spec(a, b),
{
    match a.checked_div(b) {
        Some(q) => q,
        None => i64::MIN,
    }
}

fn int_rem(a: i64, b: i64) -> (r: i64)
    requires
        b != 0,
    ensures
        r == rem_spec(a, b),
{
    match a.checked_rem(b) {
        Some(q) => q,
        None => 0,
    }
}

fn int_neg(a: i64) -> (r: i64)
    ensures
        r == neg_spec(a),
{
    if a == i64::MIN { i64::MIN } else { -a }
}

/// `+` on two values.
pub fn add_values(a: Value, b: Value) -> (r: VmResult<Value>)
    ensures
        match (a, b) {
            (Value::Int(x), Value::Int(y)) => r matches Ok(Value::Int(z)) && z == x.wrapping_add(y),
            (Value::Str(x), Value::Str(y)) => r matches Ok(Value::Str(z)) && z@ == x@ + y@,
            _ => r matches Err(e) && e.kind == VmErrorKind::TypeError("add"),
        },
{
    match (a, b) {
        (Value::Int(x), Value::Int(y)) => Ok(Value::Int(x.wrapping_add(y))),
        (Value::Str(x), Value::Str(y)) => {
            let mut s = x;
            s.append(y.as_str());
            Ok(Value::Str(s))
        },
        _ => Err(err(VmErrorKind::TypeError("add"), "unsupported types for addition".to_owned())),
    }
}

/// `n` copies of a text, none for a negative `n`.
pub open spec fn repeat_spec(s: Seq<char>, n: int) -> Seq<char>
    decreases n,
{
    if n <= 0 { Seq::empty() } else { repeat_spec(s, n - 1) + s }
}

/// `n` copies of a text; an error where the copies would take more than
/// `i64::MAX` bytes, which no string can hold.
fn repeat(s: &str, n: i64) -> (r: VmResult<String>)
    ensures
        r matches Ok(t) ==> t@ == repeat_spec(s@, n as int),
        r is Err <==> n > 0 && crate::lexer::byte_offset(s@, s@.len() as int) * n > i64::MAX,
{
    if n <= 0 {
        return Ok(String::new());
    }
    let total = match crate::vm::native::byte_offset_of(s, s.unicode_len()) {
        Some(b) => b,
        None => {
            let ghost b = crate::lexer::byte_offset(s@, s@.len() as int);
            assert(b * n > i64::MAX) by (nonlinear_arith)
                requires
                    b > i64::MAX,
                    n >= 1,
            ;
            return Err(err(VmErrorKind::TypeError("multiply"), "repeated string too long".to_owned()));
        },
    };
    assert((total as int) * (n as int) < 0x1_0000_0000_0000_0000_0000_0000_0000_0000int) by (nonlinear_arith)
        requires
            total <= 0x7fff_ffff_ffff_ffff,
            0 < n <= 0x7fff_ffff_ffff_ffff,
    ;
    if (total as u128) * (n as u128) > 0x7fff_ffff_ffff_ffffu128 {
        return Err(err(VmErrorKind::TypeError("multiply"), "repeated string too long".to_owned()));
    }
    let mut out = String::new();
    let mut k: i64 = 0;
    while k < n
        invariant
            0 <= k <= n,
            out@ == repeat_spec(s@, k as int),
        decreases n - k,
    {
        out.append(s);
        k = k + 1;
    }
    Ok(out)
}

/// `*` on two values: integers wrap, a string times an integer repeats it.
pub fn mul_values(a: Value, b: Value) -> (r: VmResult<Value>)
    ensures
        match (a, b) {
            (Value::Int(x), Value::Int(y)) => r matches Ok(Value::Int(z)) && z == x.wrapping_mul(y),
            (Value::Str(x), Value::Int(n)) => r matches Ok(Value::Str(z)) ==> z@ == repeat_spec(x@, n as int),
            (Value::Int(n), Value::Str(x)) => r matches Ok(Value::Str(z)) ==> z@ == repeat_spec(x@, n as int),
            _ => r matches Err(e) && e.kind == VmErrorKind::TypeError("multiply"),
        },
{
    match (a, b) {
        (Value::Int(x), Value::Int(y)) => Ok(Value::Int(x.wrapping_mul(y))),
        (Value::Str(x), Value::Int(n)) => {
            let t = repeat(x.as_str(), n)?;
            Ok(Value::Str(t))
        },
        (Value::Int(n), Value::Str(x)) => {
            let t = repeat(x.as_str(), n)?;
            Ok(Value::Str(t))
        },
        _ => Err(err(VmErrorKind::TypeError("multiply"), "unsupported types for multiplication".to_owned())),
    }
}

/// An ordering comparison.
#[derive(Debug, Clone, Copy, PartialEq, Eq, Structural)]
pub enum RelOp {
    Lt,
    Le,
    Gt,
    Ge,
}

/// An ordering comparison on integers or on strings (by code points).
pub open spec fn rel_spec(op: RelOp, a: Value, b: Value) -> Option<bool> {
    match (a, b) {
        (Value::Int(x), Value::Int(y)) => Some(match op {
            RelOp::Lt => x < y,
            RelOp::Le => x <= y,
            RelOp::Gt => x > y,
            RelOp::Ge => x >= y,
        }),
        (Value::Str(x), Value::Str(y)) => Some(match op {
            RelOp::Lt => text_lt(x@, y@),
            RelOp::Le => !text_lt(y@, x@),
            RelOp::Gt => text_lt(y@, x@),
            RelOp::Ge => !text_lt(x@, y@),
        }),
        _ => None,
    }
}

/// Compares two values.
pub fn rel_values(op: RelOp, a: &Value, b: &Value) -> (r: VmResult<bool>)
    ensures
        r matches Ok(v) ==> rel_spec(op, *a, *b) == Some(v),
        r is Err ==> rel_spec(op, *a, *b) is None,
{
    match (a, b) {
        (Value::Int(x), Value::Int(y)) => Ok(match op {
            RelOp::Lt => *x < *y,
            RelOp::Le => *x <= *y,
            RelOp::Gt => *x > *y,
            RelOp::Ge => *x >= *y,
        }),
        (Value::Str(x), Value::Str(y)) => Ok(match op {
            RelOp::Lt => str_lt(x.as_str(), y.as_str()),
            RelOp::Le => !str_lt(y.as_str(), x.as_str()),
            RelOp::Gt => str_lt(y.as_str(), x.as_str()),
            RelOp::Ge => !str_lt(x.as_str(), y.as_str()),
        }),
        _ => Err(err(VmErrorKind::TypeError("compare"), "cannot compare different types".to_owned())),
    }
}

/// Whether a value is a string.
fn as_text(v: &Value) -> (r: Option<&String>)
    ensures
        r matches Some(t) ==> *v == Value::Str(*t),
        r is None ==> !(v is Str),
{
    match v {
        Value::Str(t) => Some(t),
        _ => None,
    }
}

/// The function id of a method registered last under a name in a class.
fn class_method(methods: &Vec<(String, u16)>, name: &str) -> (r: Option<u16>)
    ensures
        r matches Some(f) ==> exists|j: int| 0 <= j < methods@.len() && methods@[j].1 == f,
        r == crate::vm::compiler::slot_lookup(methods@, name@),
{
    let mut i = methods.len();
    assert(methods@.subrange(0, i as int) =~= methods@);
    while i > 0
        invariant
            i <= methods.len(),
            crate::vm::compiler::slot_lookup(methods@, name@)
                == crate::vm::compiler::slot_lookup(methods@.subrange(0, i as int), name@),
        decreases i,
    {
        let ghost pre = methods@.subrange(0, i as int);
        assert(pre.drop_last() =~= methods@.subrange(0, i - 1));
        assert(pre.last() == methods@[i - 1]);
        if str_eq(methods[i - 1].0.as_str(), name) {
            return Some(methods[i - 1].1);
        }
        i = i - 1;
    }
    assert(methods@.subrange(0, 0) =~= Seq::<(String, u16)>::empty());
    None
}

impl Vm {
    /// Pops the top `n` values, returned bottom first.
    pub fn pop_n(&mut self, n: usize) -> (r: VmResult<Vec<Value>>)
        ensures
            r is Ok <==> old(self).stack@.len() >= n,
            r matches Ok(v) ==> v@ == old(self).stack@.subrange(old(self).stack@.len() - n, old(self).stack@.len() as int)
                && final(self).stack@ == old(self).stack@.subrange(0, old(self).stack@.len() - n),
            r is Err ==> final(self).stack == old(self).stack,
            final(self).frames == old(self).frames,
            final(self).heap == old(self).heap,
            final(self).max_stack == old(self).max_stack,
            final(self).max_frames == old(self).max_frames,
            final(self).state == old(self).state,
    {
        if self.stack.len() < n {
            return Err(err(VmErrorKind::StackUnderflow, "stack underflow".to_owned()));
        }
        let base = self.stack.len() - n;
        let mut out: Vec<Value> = Vec::new();
        let mut j = base;
        while j < self.stack.len()
            invariant
                base <= j <= self.stack@.len(),
                self.stack@ == old(self).stack@,
                out@ == self.stack@.subrange(base as int, j as int),
            decreases self.stack@.len() - j,
        {
            out.push(clone_value(&self.stack[j]));
            j = j + 1;
            assert(out@ =~= self.stack@.subrange(base as int, j as int));
        }
        self.stack.truncate(base);
        Ok(out)
    }

    /// Pushes a sequence of values, first to last.
    fn push_all(&mut self, vals: Vec<Value>) -> (r: VmResult<()>)
        ensures
            r is Ok <==> vals@.len() == 0 || old(self).stack@.len() + vals@.len() <= old(self).max_stack,
            r is Ok ==> final(self).stack@ == old(self).stack@ + vals@,
            final(self).frames == old(self).frames,
            final(self).heap == old(self).heap,
            final(self).max_stack == old(self).max_stack,
            final(self).max_frames == old(self).max_frames,
            final(self).state == old(self).state,
    {
        let mut k: usize = 0;
        while k < vals.len()
            invariant
                k <= vals.len(),
                self.stack@ == old(self).stack@ + vals@.subrange(0, k as int),
                k > 0 ==> old(self).stack@.len() + k <= old(self).max_stack,
                self.frames == old(self).frames,
                self.heap == old(self).heap,
                self.max_stack == old(self).max_stack,
                self.max_frames == old(self).max_frames,
                self.state == old(self).state,
            decreases vals.len() - k,
        {
            self.push(clone_value(&vals[k]))?;
            k = k + 1;
            assert(self.stack@ =~= old(self).stack@ + vals@.subrange(0, k as int));
        }
        assert(vals@.subrange(0, k as int) =~= vals@);
        Ok(())
    }

    /// `range(..)`: a range object in the heap from one to three integer
    /// arguments (stop; start, stop; start, stop, step), or an error.
    pub fn create_range(&mut self, args: Vec<Value>) -> (r: VmResult<Value>)
        ensures
            final(self).stack == old(self).stack,
            final(self).frames == old(self).frames,
            final(self).max_stack == old(self).max_stack,
            final(self).max_frames == old(self).max_frames,
            final(self).state == old(self).state,
            match range_object(args@) {
                Some(o) => r == Ok::<Value, VmError>(Value::Ref(old(self).heap@.len() as usize))
                    && final(self).heap@ == old(self).heap@.push(o),
                None => r is Err && final(self).heap == old(self).heap,
            },
            !(1 <= args@.len() <= 3) ==> (r matches Err(e)
                && e.kind == (VmErrorKind::ArityError { expected: 3, got: args@.len() as usize })
                && e.message@ == "range() takes 1 to 3 arguments ("@ + decimal_digits(args@.len()) + " given)"@),
            1 <= args@.len() <= 3 ==> match first_non_int(args@, 0) {
                Some(j) => r matches Err(e) && e.kind == VmErrorKind::TypeError("int")
                    && e.message@ == "range() argument must be int, not '"@
                        + type_name_spec(old(self).heap@, args@[j]) + "'"@,
                None => args@.len() == 3 && args@[2] == Value::Int(0) ==> (r matches Err(e)
                    && e.kind == VmErrorKind::TypeError("range")
                    && e.message@ == "range() step argument must not be zero"@),
            },
    {
        let n = args.len();
        if n < 1 || n > 3 {
            return Err(err(VmErrorKind::ArityError { expected: 3, got: n },
                count_message("range() takes 1 to 3 arguments (", n, " given)")));
        }
        let mut ints: Vec<i64> = Vec::new();
        let mut k: usize = 0;
        while k < n
            invariant
                k <= n,
                1 <= n <= 3,
                n == args.len(),
                ints@.len() == k,
                forall|j: int| 0 <= j < k ==> args@[j] == Value::Int(#[trigger] ints@[j]),
                first_non_int(args@, 0) == first_non_int(args@, k as int),
                self.heap == old(self).heap,
            decreases n - k,
        {
            match &args[k] {
                Value::Int(i) => ints.push(*i),
                _ => {
                    let mut m = "range() argument must be int, not '".to_owned();
                    let name = self.type_label(&args[k]);
                    m.append(name.as_str());
                    m.append("'");
                    return Err(err(VmErrorKind::TypeError("int"), m));
                },
            }
            k = k + 1;
        }
        assert(first_non_int(args@, n as int) is None);
        if ints.len() == 1 {
            Ok(self.new_object(Object::Range { current: 0, stop: ints[0], step: 1 }))
        } else if ints.len() == 2 {
            Ok(self.new_object(Object::Range { current: ints[0], stop: ints[1], step: 1 }))
        } else {
            if ints[2] == 0 {
                return Err(err(VmErrorKind::TypeError("range"), "range() step argument must not be zero".to_owned()));
            }
            Ok(self.new_object(Object::Range { current: ints[0], stop: ints[1], step: ints[2] }))
        }
    }

    /// Calls builtin `bid` on the top `argc` values.
    fn call_builtin<IO: RuntimeIo>(&mut self, bid: u8, argc: usize, io: &mut IO) -> (r: VmResult<Flow>)
        ensures
            final(self).frames@.len() == old(self).frames@.len(),
            final(self).frames@.len() > 0 ==> final(self).frames@.drop_last() == old(self).frames@.drop_last()
                && final(self).frames@.last().func_id == old(self).frames@.last().func_id,
            final(self).max_stack == old(self).max_stack,
            final(self).max_frames == old(self).max_frames,
            !(r matches Ok(Flow::Done(_))),
            !(bid <= 6 || bid == 10) ==> r is Err,
            bid == 1 && argc > 1 ==> (r matches Err(e) && e.kind == (VmErrorKind::ArityError { expected: 1, got: argc })),
            bid == 1 && (r matches Ok(Flow::WaitingForInput)) ==> final(self).state == VmState::WaitingForInput
                && final(self).stack == old(self).stack && final(self).heap == old(self).heap
                && (old(self).frames@.len() > 0 ==> final(self).frames@.last().ip
                    == (if old(self).frames@.last().ip > 0 { (old(self).frames@.last().ip - 1) as usize }
                        else { old(self).frames@.last().ip })),
            bid == 1 && (r matches Ok(Flow::Continue)) ==> final(self).state == VmState::Running
                && final(self).heap == old(self).heap
                && final(self).stack@.len() == old(self).stack@.len() - argc + 1
                && final(self).stack@.drop_last() == old(self).stack@.subrange(0, old(self).stack@.len() - argc)
                && final(self).stack@.last() is Str,
            (bid == 0 || bid == 2 || bid == 3 || bid == 4 || bid == 5 || bid == 10) ==> {
                let n = old(self).stack@.len();
                if n < argc {
                    r is Err
                } else {
                    let args = old(self).stack@.subrange(n - argc, n as int);
                    exists|res: VmResult<Value>| #[trigger] pure_builtin_spec(old(self).heap@, bid, args, res)
                        && match res {
                            Ok(v) => (r is Ok <==> n - argc < old(self).max_stack)
                                && (r is Ok ==> final(self).stack@ == old(self).stack@.subrange(0, n - argc).push(v)
                                    && final(self).heap == old(self).heap),
                            Err(e) => r == Err::<Flow, VmError>(e),
                        }
                }
            },
            bid == 6 && old(self).stack@.len() >= argc ==> match range_object(
                old(self).stack@.subrange(old(self).stack@.len() - argc, old(self).stack@.len() as int)) {
                None => r is Err,
                Some(o) => (r is Ok <==> old(self).stack@.len() - argc < old(self).max_stack)
                    && (r is Ok ==> final(self).heap@ == old(self).heap@.push(o)
                        && final(self).stack@ == old(self).stack@.subrange(0, old(self).stack@.len() - argc)
                            .push(Value::Ref(old(self).heap@.len() as usize))),
            },
    {
        if bid == 0 || bid == 2 || bid == 3 || bid == 4 || bid == 5 || bid == 10 {
            let args = self.pop_n(argc)?;
            let res = self.pure_builtin(bid, &args, io);
            let ghost g = res;
            assert(pure_builtin_spec(old(self).heap@, bid, args@, g));
            match res {
                Ok(v) => {
                    self.push(v)?;
                    Ok(Flow::Continue)
                },
                Err(e) => Err(e),
            }
        } else if bid == 1 {
            if argc > 1 {
                return Err(err(VmErrorKind::ArityError { expected: 1, got: argc },
                    count_message("input() takes at most 1 positional argument but ", argc, " given")));
            }
            let mut prompt: Option<String> = None;
            if argc == 1 {
                if self.stack.len() == 0 {
                    return Err(err(VmErrorKind::StackUnderflow, "stack underflow".to_owned()));
                }
                match as_text(&self.stack[self.stack.len() - 1]) {
                    Some(t) => {
                        prompt = Some(t.clone());
                    },
                    None => {
                        return Err(err(VmErrorKind::TypeError("input"), "prompt must be a string".to_owned()));
                    },
                }
            }
            let res = match &prompt {
                Some(p) => io.read_line_with_prompt(Some(p.as_str())),
                None => io.read_line_with_prompt(None),
            };
            match res {
                ReadResult::Line(line) => {
                    if argc == 1 {
                        self.pop()?;
                    }
                    let t = trim(line.as_str());
                    self.push(Value::Str(t))?;
                    self.state = VmState::Running;
                    Ok(Flow::Continue)
                },
                ReadResult::WaitingForInput => {
                    self.state = VmState::WaitingForInput;
                    if self.frames.len() > 0 {
                        let ip = self.frames[self.frames.len() - 1].ip;
                        if ip > 0 {
                            self.set_ip(ip - 1);
                        }
                    }
                    Ok(Flow::WaitingForInput)
                },
                ReadResult::Error(e) => Err(err(VmErrorKind::TypeError("io"), e)),
            }
        } else if bid == 6 {
            let args = self.pop_n(argc)?;
            let v = self.create_range(args)?;
            self.push(v)?;
            Ok(Flow::Continue)
        } else {
            Err(err(VmErrorKind::TypeError("builtin"), count_message("unknown builtin id ", bid as usize, "")))
        }
    }
}

/// The text of a value in an error message: scalars by their kind and
/// value, other values as they print.
pub open spec fn debug_text(v: Value) -> Seq<char> {
    match v {
        Value::Int(i) => "Int("@ + crate::text::int_text(i as int) + ")"@,
        Value::Bool(b) => if b { "Bool(true)"@ } else { "Bool(false)"@ },
        Value::NoneVal => "None"@,
        Value::Float(t) => "Float("@ + t@ + ")"@,
        _ => crate::vm::values::display_plain(v),
    }
}

fn debug_value(v: &Value) -> (s: String)
    ensures
        s@ == debug_text(*v),
{
    match v {
        Value::Int(i) => {
            let mut s = "Int(".to_owned();
            let t = i64_to_string(*i);
            s.append(t.as_str());
            s.append(")");
            s
        },
        Value::Bool(b) => if *b { "Bool(true)".to_owned() } else { "Bool(false)".to_owned() },
        Value::NoneVal => "None".to_owned(),
        Value::Float(t) => {
            let mut s = "Float(".to_owned();
            s.append(t.as_str());
            s.append(")");
            s
        },
        _ => display_plain_value(v),
    }
}

/// Whether the frames run functions below `nfun` after a step that left
/// them as they were or pushed a frame of such a function.
proof fn lemma_frames_push(frames: Seq<Frame>, f: Frame, nfun: nat)
    requires
        frames_ok(frames, nfun),
        f.func_id < nfun,
    ensures
        frames_ok(frames.push(f), nfun),
{
    assert forall|i: int| 0 <= i < frames.push(f).len() implies (#[trigger] frames.push(f)[i]).func_id < nfun by {
        if i < frames.len() {
            assert(frames.push(f)[i] == frames[i]);
        }
    }
}

impl Vm {
    /// Calls the value below the top `argc` values: a class makes an
    /// instance (running `__init__` when it has one), a closure runs its
    /// function, `range` makes a range.
    fn call_value(&mut self, argc: usize, module: &Module) -> (r: VmResult<()>)
        requires
            argc <= 255,
            module_wf(*module),
            frames_ok(old(self).frames@, module.functions@.len()),
        ensures
            frames_ok(final(self).frames@, module.functions@.len()),
            final(self).max_stack == old(self).max_stack,
            final(self).max_frames == old(self).max_frames,
            old(self).stack@.len() < argc + 1 ==> r is Err,
            old(self).stack@.len() >= argc + 1 ==> match old(self).stack@[old(self).stack@.len() - argc - 1] {
                Value::Class(cid) => if (cid as int) < module.classes@.len() {
                    let n = old(self).stack@.len();
                    let made = final(self).heap@.drop_last() == old(self).heap@
                        && final(self).heap@.len() == old(self).heap@.len() + 1
                        && (final(self).heap@.last() matches Object::Instance { class_id, attrs }
                            && class_id == cid && attrs@.len() == 0)
                        && final(self).stack@ == old(self).stack@.subrange(0, n - argc - 1)
                            .push(Value::Ref(old(self).heap@.len() as usize));
                    match crate::vm::compiler::slot_lookup(module.classes@[cid as int].methods@, "__init__"@) {
                        Some(init) => (r is Ok <==> n <= old(self).max_stack && old(self).frames@.len() < old(self).max_frames)
                            && (r is Ok ==> made && final(self).frames@.drop_last() == old(self).frames@
                                && final(self).frames@.last().func_id == init as usize),
                        None => if argc == 0 {
                            (r is Ok <==> n - 1 < old(self).max_stack) && (r is Ok ==> made && final(self).frames == old(self).frames)
                        } else {
                            r is Err
                        },
                    }
                } else {
                    r is Err
                },
                Value::BuiltinClass(t) => {
                    let args = old(self).stack@.subrange(old(self).stack@.len() - argc, old(self).stack@.len() as int);
                    let made = old(self).stack@.len() - argc - 1 < old(self).max_stack;
                    let rest = old(self).stack@.subrange(0, old(self).stack@.len() - argc - 1)
                        .push(Value::Ref(old(self).heap@.len() as usize));
                    match t {
                        BuiltinClassType::Range => match range_object(args) {
                            None => r is Err,
                            Some(o) => (r is Ok <==> made) && (r is Ok ==> final(self).frames == old(self).frames
                                && final(self).heap@ == old(self).heap@.push(o) && final(self).stack@ == rest),
                        },
                        BuiltinClassType::List => if argc == 0 {
                            (r is Ok <==> made) && (r is Ok ==> final(self).frames == old(self).frames
                                && final(self).heap@.drop_last() == old(self).heap@
                                && final(self).heap@.len() == old(self).heap@.len() + 1
                                && (final(self).heap@.last() matches Object::List(v) && v@.len() == 0)
                                && final(self).stack@ == rest)
                        } else {
                            r is Err
                        },
                        BuiltinClassType::Dict => if argc == 0 {
                            (r is Ok <==> made) && (r is Ok ==> final(self).frames == old(self).frames
                                && final(self).heap@.drop_last() == old(self).heap@
                                && final(self).heap@.len() == old(self).heap@.len() + 1
                                && (final(self).heap@.last() matches Object::Dict(v) && v@.len() == 0)
                                && final(self).stack@ == rest)
                        } else {
                            r is Err
                        },
                    }
                },
                Value::Ref(i) => match closure_function(old(self).heap@, i as int) {
                    Some(f) => if f < module.functions@.len() {
                        (r is Ok ==> final(self).frames@.drop_last() == old(self).frames@
                            && final(self).frames@.last().func_id == f as usize
                            && final(self).frames@.last().ip == 0
                            && final(self).stack@ == old(self).stack@.subrange(0, old(self).stack@.len() - argc - 1)
                            && final(self).heap == old(self).heap)
                        && (r is Ok ==> (argc == 0 || old(self).stack@.len() - 1 <= old(self).max_stack)
                            && old(self).frames@.len() < old(self).max_frames)
                    } else {
                        r is Err
                    },
                    None => r is Err,
                },
                _ => r is Err,
            },
    {
        let args = self.pop_n(argc)?;
        let callable = self.pop()?;
        match callable {
            Value::Class(class_id) => {
                let cid = class_id as usize;
                if cid >= module.classes.len() {
                    return Err(err(VmErrorKind::TypeError("callable"), "class is not callable".to_owned()));
                }
                let no_attrs: Vec<(String, Value)> = Vec::new();
                assert(no_attrs@.len() == 0);
                let instance = self.new_object(Object::Instance { class_id, attrs: no_attrs });
                assert(self.heap@.drop_last() =~= old(self).heap@);
                assert(self.heap@.last() matches Object::Instance { class_id: c, attrs: a } && c == class_id && a@.len() == 0);
                assert(instance == Value::Ref(old(self).heap@.len() as usize));
                match class_method(&module.classes[cid].methods, "__init__") {
                    Some(init) => {
                        proof {
                            let j = choose|j: int| 0 <= j < module.classes@[cid as int].methods@.len()
                                && module.classes@[cid as int].methods@[j].1 == init;
                            assert(module.classes@[cid as int].methods@[j].1 < module.functions@.len());
                        }
                        self.push(clone_value(&instance))?;
                        self.push_all(args)?;
                        self.enter_func(module, init as usize, argc + 1, Vec::new())?;
                        proof { lemma_frames_push(old(self).frames@, self.frames@.last(), module.functions@.len()); }
                        assert(self.frames@ =~= old(self).frames@.push(self.frames@.last()));
                        let base = self.frames[self.frames.len() - 1].ret_stack_size;
                        let ghost s1 = self.stack@;
                        if base <= self.stack.len() {
                            self.stack.insert(base, instance);
                        }
                        proof {
                            assert(base as int == s1.len());
                            assert(self.stack@ =~= s1.push(instance));
                            assert(s1 =~= old(self).stack@.subrange(0, old(self).stack@.len() - argc - 1));
                            assert(self.heap@.drop_last() == old(self).heap@);
                            assert(self.heap@.len() == old(self).heap@.len() + 1);
                            assert(self.heap@.last() matches Object::Instance { class_id: c, attrs: a } && c == class_id && a@.len() == 0);
                            assert(self.stack@ == old(self).stack@.subrange(0, old(self).stack@.len() - argc - 1)
                                .push(Value::Ref(old(self).heap@.len() as usize)));
                        }
                        Ok(())
                    },
                    None => {
                        if args.len() > 0 {
                            let mut m = module.classes[cid].name.clone();
                            m.append("() takes no arguments");
                            return Err(err(VmErrorKind::ArityError { expected: 0, got: args.len() }, m));
                        }
                        self.push(instance)?;
                        proof {
                            assert(self.heap@.drop_last() == old(self).heap@);
                            assert(self.heap@.last() matches Object::Instance { class_id: c, attrs: a } && c == class_id && a@.len() == 0);
                            assert(self.stack@ =~= old(self).stack@.subrange(0, old(self).stack@.len() - argc - 1)
                                .push(Value::Ref(old(self).heap@.len() as usize)));
                        }
                        Ok(())
                    },
                }
            },
            Value::BuiltinClass(t) => {
                let v = match t {
                    BuiltinClassType::Range => self.create_range(args)?,
                    BuiltinClassType::List => {
                        if args.len() > 0 {
                            return Err(err(VmErrorKind::ArityError { expected: 0, got: args.len() }, "list() takes no arguments".to_owned()));
                        }
                        self.new_object(Object::List(Vec::new()))
                    },
                    BuiltinClassType::Dict => {
                        if args.len() > 0 {
                            return Err(err(VmErrorKind::ArityError { expected: 0, got: args.len() }, "dict() takes no arguments".to_owned()));
                        }
                        self.new_object(Object::Dict(Vec::new()))
                    },
                };
                self.push(v)?;
                Ok(())
            },
            Value::Ref(i) => {
                if i >= self.heap.len() {
                    return Err(err(VmErrorKind::TypeError("callable"), "object is not callable".to_owned()));
                }
                let (fid, captures) = match &self.heap[i] {
                    Object::Closure { func_id, captures } => {
                        let mut caps: Vec<Value> = Vec::new();
                        let mut k: usize = 0;
                        while k < captures.len()
                            invariant
                                k <= captures.len(),
                            decreases captures.len() - k,
                        {
                            caps.push(clone_value(&captures[k]));
                            k = k + 1;
                        }
                        (*func_id as usize, caps)
                    },
                    _ => {
                        return Err(err(VmErrorKind::TypeError("callable"), "object is not callable".to_owned()));
                    },
                };
                if fid >= module.functions.len() {
                    return Err(err(VmErrorKind::TypeError("callable"), "object is not callable".to_owned()));
                }
                self.push_all(args)?;
                self.enter_func(module, fid, argc, captures)?;
                proof { lemma_frames_push(old(self).frames@, self.frames@.last(), module.functions@.len()); }
                assert(self.frames@ =~= old(self).frames@.push(self.frames@.last()));
                Ok(())
            },
            _ => {
                let mut m = debug_value(&callable);
                m.append(" is not callable");
                Err(err(VmErrorKind::TypeError("callable"), m))
            },
        }
    }

    /// Runs a native method on its receiver.
    fn call_native(&mut self, func: NativeMethod, receiver: &Value, args: &Vec<Value>) -> (r: Result<Value, NativeError>)
        ensures
            final(self).stack == old(self).stack,
            final(self).frames == old(self).frames,
            final(self).max_stack == old(self).max_stack,
            final(self).max_frames == old(self).max_frames,
            final(self).state == old(self).state,
            match func {
                NativeMethod::RangeIter | NativeMethod::RangeHasNext | NativeMethod::RangeNext =>
                    range_method_effect(old(self).heap@, final(self).heap@, func, *receiver, args@, r),
                _ => final(self).heap == old(self).heap && match *receiver {
                    Value::Str(s) => str_method_effect(func, s@, args@, r),
                    _ => r is Err,
                },
            },
    {
        use_native(self, func, receiver, args)
    }

    /// Calls method `sym` of the value below the top `argc` values.
    fn call_method(&mut self, sym: u16, argc: usize, module: &Module) -> (r: VmResult<()>)
        requires
            argc <= 255,
            module_wf(*module),
            sym < module.symbols@.len(),
            frames_ok(old(self).frames@, module.functions@.len()),
        ensures
            frames_ok(final(self).frames@, module.functions@.len()),
            final(self).max_stack == old(self).max_stack,
            final(self).max_frames == old(self).max_frames,
            old(self).stack@.len() < argc + 1 ==> r is Err,
            old(self).stack@.len() >= argc + 1 ==> match instance_method(old(self).heap@, module,
                old(self).stack@[old(self).stack@.len() - argc - 1], module.symbols@[sym as int]@) {
                Some(Some(fid)) => (r is Ok <==> old(self).stack@.len() <= old(self).max_stack
                        && old(self).frames@.len() < old(self).max_frames)
                    && (r is Ok ==> final(self).frames@.drop_last() == old(self).frames@
                        && final(self).frames@.last().func_id == fid as usize
                        && final(self).frames@.last().ip == 0
                        && final(self).frames@.last().locals@ == call_locals(old(self).stack@.subrange(
                            old(self).stack@.len() - argc - 1, old(self).stack@.len() as int),
                            module.functions@[fid as int].num_locals as nat)
                        && final(self).stack@ == old(self).stack@.subrange(0, old(self).stack@.len() - argc - 1)
                        && final(self).heap == old(self).heap),
                Some(None) => r is Err,
                None => true,
            },
    {
        let args = self.pop_n(argc)?;
        let receiver = self.pop()?;
        let name = module.symbols[sym as usize].as_str();
        match &receiver {
            Value::Ref(i) => {
                let i = *i;
                if i < self.heap.len() {
                    let cid_opt: Option<u16> = match &self.heap[i] {
                        Object::Instance { class_id, .. } => Some(*class_id),
                        _ => None,
                    };
                    match cid_opt {
                        Some(class_id) => {
                            let cid = class_id as usize;
                            if cid >= module.classes.len() {
                                return Err(err(VmErrorKind::TypeError("method"), "unknown class".to_owned()));
                            }
                            match class_method(&module.classes[cid].methods, name) {
                                Some(fid) => {
                                    proof {
                                        let j = choose|j: int| 0 <= j < module.classes@[cid as int].methods@.len()
                                            && module.classes@[cid as int].methods@[j].1 == fid;
                                        assert(module.classes@[cid as int].methods@[j].1 < module.functions@.len());
                                    }
                                    self.push(clone_value(&receiver))?;
                                    self.push_all(args)?;
                                    self.enter_func(module, fid as usize, argc + 1, Vec::new())?;
                                    proof { lemma_frames_push(old(self).frames@, self.frames@.last(), module.functions@.len()); }
                                    assert(self.frames@ =~= old(self).frames@.push(self.frames@.last()));
                                    return Ok(());
                                },
                                None => {
                                    return Err(err(VmErrorKind::TypeError("method"),
                                        method_message("'", module.classes[cid].name.as_str(), "' has no method '", name, "'")));
                                },
                            }
                        },
                        None => {},
                    }
                }
            },
            _ => {},
        }
        let tid = self.type_id(&receiver);
        if tid >= module.types.len() as u64 {
            return Err(err(VmErrorKind::TypeError("type"), count_message("invalid type id: ", tid as usize, "")));
        }
        let tdef = &module.types[tid as usize];
        match tdef.method(name) {
            None => Err(err(VmErrorKind::TypeError("method"),
                method_message("'", tdef.name.as_str(), "' object has no method '", name, "'"))),
            Some(MethodImpl::Native { func, arity }) => {
                if !arity.check(args.len()) {
                    let expected = match arity {
                        Arity::Exact(n) => n,
                        _ => 0,
                    };
                    let desc = arity.description();
                    let mut m = tdef.name.clone();
                    m.append(".");
                    m.append(name);
                    m.append("() takes ");
                    m.append(desc.as_str());
                    m.append(" argument(s) but ");
                    let t = u64_to_string(args.len() as u64);
                    m.append(t.as_str());
                    m.append(" given");
                    return Err(err(VmErrorKind::ArityError { expected, got: args.len() }, m));
                }
                match self.call_native(func, &receiver, &args) {
                    Ok(v) => {
                        self.push(v)?;
                        Ok(())
                    },
                    Err(e) => Err(err(VmErrorKind::TypeError("native method"), e.message)),
                }
            },
            Some(MethodImpl::UserDefined { func_id }) => {
                if func_id as usize >= module.functions.len() {
                    return Err(err(VmErrorKind::TypeError("method"), "unknown method".to_owned()));
                }
                self.push(receiver)?;
                self.push_all(args)?;
                self.enter_func(module, func_id as usize, argc + 1, Vec::new())?;
                proof { lemma_frames_push(old(self).frames@, self.frames@.last(), module.functions@.len()); }
                assert(self.frames@ =~= old(self).frames@.push(self.frames@.last()));
                Ok(())
            },
        }
    }
}

fn text_arg(args: &Vec<Value>, k: usize) -> (r: Result<String, NativeError>)
    ensures
        r matches Ok(t) ==> k < args@.len() && args@[k as int] == Value::Str(t),
        r is Err ==> !(k < args@.len() && args@[k as int] is Str),
{
    if k >= args.len() {
        return Err(NativeError::new("missing argument".to_owned()));
    }
    match &args[k] {
        Value::Str(t) => Ok(t.clone()),
        _ => Err(NativeError::type_error("String", "other type")),
    }
}

/// Runs a native method (see `Vm::call_native`).
fn use_native(vm: &mut Vm, func: NativeMethod, receiver: &Value, args: &Vec<Value>) -> (r: Result<Value, NativeError>)
    ensures
        final(vm).stack == old(vm).stack,
        final(vm).frames == old(vm).frames,
        final(vm).max_stack == old(vm).max_stack,
        final(vm).max_frames == old(vm).max_frames,
        final(vm).state == old(vm).state,
        match func {
            NativeMethod::RangeIter | NativeMethod::RangeHasNext | NativeMethod::RangeNext =>
                range_method_effect(old(vm).heap@, final(vm).heap@, func, *receiver, args@, r),
            _ => final(vm).heap == old(vm).heap && match *receiver {
                Value::Str(s) => str_method_effect(func, s@, args@, r),
                _ => r is Err,
            },
        },
{
    match func {
        NativeMethod::RangeIter | NativeMethod::RangeHasNext | NativeMethod::RangeNext => range_native(vm, func, receiver, args),
        _ => str_native(func, receiver, args),
    }
}

/// What a native string method gives for receiver text `s`.
pub open spec fn str_method_effect(func: NativeMethod, s: Seq<char>, args: Seq<Value>, r: Result<Value, NativeError>) -> bool {
    match func {
        NativeMethod::StrUpper => if args.len() == 0 {
            r matches Ok(Value::Str(t)) && t@ == crate::vm::native::upper_text(s)
        } else {
            r is Err
        },
        NativeMethod::StrLower => if args.len() == 0 {
            r matches Ok(Value::Str(t)) && t@ == crate::vm::native::lower_text(s)
        } else {
            r is Err
        },
        NativeMethod::StrStrip => if args.len() == 0 {
            r matches Ok(Value::Str(t)) && t@ == crate::vm::values::trim_spec(s)
        } else {
            r is Err
        },
        NativeMethod::StrSplit | NativeMethod::StrJoin => r is Err,
        NativeMethod::StrReplace => if args.len() == 2 {
            match (args[0], args[1]) {
                (Value::Str(a), Value::Str(b)) =>
                    r matches Ok(Value::Str(t)) && t@ == crate::vm::native::replace_spec(s, a@, b@),
                _ => r is Err,
            }
        } else {
            r is Err
        },
        NativeMethod::StrStartsWith => if args.len() == 1 {
            match args[0] {
                Value::Str(a) => r == Ok::<Value, NativeError>(Value::Bool(crate::vm::native::occurs_at(s, a@, 0))),
                _ => r is Err,
            }
        } else {
            r is Err
        },
        NativeMethod::StrEndsWith => if args.len() == 1 {
            match args[0] {
                Value::Str(a) => r == Ok::<Value, NativeError>(Value::Bool(
                    a@.len() <= s.len() && crate::vm::native::occurs_at(s, a@, s.len() - a@.len()))),
                _ => r is Err,
            }
        } else {
            r is Err
        },
        NativeMethod::StrFind => if args.len() == 1 {
            match args[0] {
                Value::Str(a) => match crate::vm::native::find_from(s, a@, 0) {
                    Some(i) => if crate::lexer::byte_offset(s, i) <= i64::MAX {
                        r == Ok::<Value, NativeError>(Value::Int(crate::lexer::byte_offset(s, i) as i64))
                    } else {
                        r is Err
                    },
                    None => r == Ok::<Value, NativeError>(Value::Int(-1i64)),
                },
                _ => r is Err,
            }
        } else {
            r is Err
        },
        NativeMethod::StrCount => if args.len() == 1 {
            match args[0] {
                Value::Str(a) => if crate::vm::native::count_spec(s, a@) <= i64::MAX {
                    r == Ok::<Value, NativeError>(Value::Int(crate::vm::native::count_spec(s, a@) as i64))
                } else {
                    r is Err
                },
                _ => r is Err,
            }
        } else {
            r is Err
        },
        _ => r is Err,
    }
}

/// The native methods of strings.
pub fn str_native(func: NativeMethod, receiver: &Value, args: &Vec<Value>) -> (r: Result<Value, NativeError>)
    ensures
        match *receiver {
            Value::Str(s) => str_method_effect(func, s@, args@, r),
            _ => r is Err,
        },
{
    let s = match receiver {
        Value::Str(t) => t,
        _ => {
            return Err(NativeError::type_error("String", "other type"));
        },
    };
    match func {
        NativeMethod::StrUpper => {
            if args.len() != 0 {
                return Err(NativeError::arity_error("str.upper()", 0, args.len()));
            }
            Ok(Value::Str(crate::vm::native::str_upper(s.as_str())))
        },
        NativeMethod::StrLower => {
            if args.len() != 0 {
                return Err(NativeError::arity_error("str.lower()", 0, args.len()));
            }
            Ok(Value::Str(crate::vm::native::str_lower(s.as_str())))
        },
        NativeMethod::StrStrip => {
            if args.len() != 0 {
                return Err(NativeError::arity_error("str.strip()", 0, args.len()));
            }
            Ok(Value::Str(crate::vm::native::str_strip(s.as_str())))
        },
        NativeMethod::StrSplit => Err(NativeError::new("str.split() not implemented yet (requires list type)".to_owned())),
        NativeMethod::StrJoin => Err(NativeError::new("str.join() not implemented yet (requires list type)".to_owned())),
        NativeMethod::StrReplace => {
            if args.len() != 2 {
                return Err(NativeError::arity_error("str.replace()", 2, args.len()));
            }
            let a = text_arg(args, 0)?;
            let b = text_arg(args, 1)?;
            Ok(Value::Str(crate::vm::native::replace(s.as_str(), a.as_str(), b.as_str())))
        },
        NativeMethod::StrStartsWith => {
            if args.len() != 1 {
                return Err(NativeError::arity_error("str.startswith()", 1, args.len()));
            }
            let a = text_arg(args, 0)?;
            Ok(Value::Bool(crate::vm::native::starts_with(s.as_str(), a.as_str())))
        },
        NativeMethod::StrEndsWith => {
            if args.len() != 1 {
                return Err(NativeError::arity_error("str.endswith()", 1, args.len()));
            }
            let a = text_arg(args, 0)?;
            Ok(Value::Bool(crate::vm::native::ends_with(s.as_str(), a.as_str())))
        },
        NativeMethod::StrFind => {
            if args.len() != 1 {
                return Err(NativeError::arity_error("str.find()", 1, args.len()));
            }
            let a = text_arg(args, 0)?;
            match crate::vm::native::find(s.as_str(), a.as_str()) {
                Some(i) => match crate::vm::native::byte_offset_of(s.as_str(), i) {
                    Some(b) => Ok(Value::Int(b as i64)),
                    None => Err(NativeError::new("string too long".to_owned())),
                },
                None => Ok(Value::Int(-1)),
            }
        },
        NativeMethod::StrCount => {
            if args.len() != 1 {
                return Err(NativeError::arity_error("str.count()", 1, args.len()));
            }
            let a = text_arg(args, 0)?;
            match crate::vm::native::count(s.as_str(), a.as_str()) {
                Some(c) => if c <= 0x7fff_ffff_ffff_ffffu64 {
                    Ok(Value::Int(c as i64))
                } else {
                    Err(NativeError::new("string too long".to_owned()))
                },
                None => Err(NativeError::new("string too long".to_owned())),
            }
        },
        _ => Err(NativeError::type_error("String", "other type")),
    }
}

/// The native methods of ranges: a range is its own iterator.
/// What a range method does to the heap (`h0` to `h1`) and gives: the
/// receiver must be a range; `__iter__` gives the range itself,
/// `__has_next__` whether the range has a value left, `__next__` its
/// current value and advances it by its step.
pub open spec fn range_method_effect(h0: Seq<Object>, h1: Seq<Object>, func: NativeMethod, receiver: Value,
    args: Seq<Value>, r: Result<Value, NativeError>) -> bool
{
    if receiver matches Value::Ref(i) && i < h0.len() && h0[i as int] is Range {
        let i = receiver->Ref_0 as int;
        let current = h0[i]->current;
        let stop = h0[i]->stop;
        let step = h0[i]->step;
        match func {
            NativeMethod::RangeIter => r matches Ok(v) && v == receiver && h1 == h0,
            NativeMethod::RangeHasNext => h1 == h0 && if args.len() == 0 {
                r matches Ok(v) && v == Value::Bool(if step > 0 { current < stop } else if step < 0 { current > stop } else { false })
            } else {
                r is Err
            },
            _ => if args.len() == 0 {
                r matches Ok(v) && v == Value::Int(current)
                    && h1 == h0.update(i, Object::Range { current: current.wrapping_add(step), stop, step })
            } else {
                r is Err && h1 == h0
            },
        }
    } else {
        r is Err && h1 == h0
    }
}

fn range_native(vm: &mut Vm, func: NativeMethod, receiver: &Value, args: &Vec<Value>) -> (r: Result<Value, NativeError>)
    ensures
        final(vm).stack == old(vm).stack,
        final(vm).frames == old(vm).frames,
        final(vm).max_stack == old(vm).max_stack,
        final(vm).max_frames == old(vm).max_frames,
        final(vm).state == old(vm).state,
        range_method_effect(old(vm).heap@, final(vm).heap@, func, *receiver, args@, r),
{
    let i = match receiver {
        Value::Ref(i) => *i,
        _ => {
            return Err(NativeError::type_error("Range", "other type"));
        },
    };
    if i >= vm.heap.len() {
        return Err(NativeError::type_error("Range", "other object"));
    }
    let (current, stop, step) = match &vm.heap[i] {
        Object::Range { current, stop, step } => (*current, *stop, *step),
        _ => {
            return Err(NativeError::type_error("Range", "other object"));
        },
    };
    match func {
        NativeMethod::RangeIter => Ok(clone_value(receiver)),
        NativeMethod::RangeHasNext => {
            if args.len() != 0 {
                return Err(NativeError::arity_error("range.__has_next__()", 0, args.len()));
            }
            let has_next = if step > 0 { current < stop } else if step < 0 { current > stop } else { false };
            Ok(Value::Bool(has_next))
        },
        _ => {
            if args.len() != 0 {
                return Err(NativeError::arity_error("range.__next__()", 0, args.len()));
            }
            vm.heap.set(i, Object::Range { current: current.wrapping_add(step), stop, step });
            Ok(Value::Int(current))
        },
    }
}

/// The value of the attribute recorded last under a name.
pub open spec fn attr_lookup(attrs: Seq<(String, Value)>, n: Seq<char>) -> Option<Value>
    decreases attrs.len(),
{
    if attrs.len() == 0 {
        None
    } else if attrs.last().0@ == n {
        Some(attrs.last().1)
    } else {
        attr_lookup(attrs.drop_last(), n)
    }
}

proof fn lemma_attr_lookup(attrs: Seq<(String, Value)>, n: Seq<char>, k: int)
    requires
        -1 <= k < attrs.len(),
        k >= 0 ==> attrs[k].0@ == n,
        forall|j: int| k < j < attrs.len() ==> (#[trigger] attrs[j]).0@ != n,
    ensures
        attr_lookup(attrs, n) == (if k >= 0 { Some(attrs[k].1) } else { None::<Value> }),
    decreases attrs.len(),
{
    if attrs.len() > 0 && k < attrs.len() - 1 {
        assert(attrs.last() == attrs[attrs.len() - 1]);
        let d = attrs.drop_last();
        assert forall|j: int| k < j < d.len() implies (#[trigger] d[j]).0@ != n by {
            assert(d[j] == attrs[j]);
        }
        lemma_attr_lookup(d, n, k);
    }
}

/// The attribute `name` of the value `obj`: only instances have attributes.
pub open spec fn attr_of(heap: Seq<Object>, obj: Value, name: Seq<char>) -> Option<Value> {
    match obj {
        Value::Ref(i) => if i < heap.len() {
            match heap[i as int] {
                Object::Instance { attrs, .. } => attr_lookup(attrs@, name),
                _ => None,
            }
        } else {
            None
        },
        _ => None,
    }
}

/// The attributes with `name` set to `v`: the entry recorded last under it
/// takes the value, else a new entry is added at the end.
pub open spec fn attrs_set(attrs: Seq<(Seq<char>, Value)>, name: Seq<char>, v: Value) -> Seq<(Seq<char>, Value)> {
    if exists|k: int| 0 <= k < attrs.len() && (#[trigger] attrs[k]).0 == name {
        let k = choose|k: int| 0 <= k < attrs.len() && (#[trigger] attrs[k]).0 == name
            && forall|j: int| k < j < attrs.len() ==> (#[trigger] attrs[j]).0 != name;
        attrs.update(k, (name, v))
    } else {
        attrs.push((name, v))
    }
}

/// The attributes, each by the text of its name.
pub open spec fn attrs_view(attrs: Seq<(String, Value)>) -> Seq<(Seq<char>, Value)> {
    attrs.map_values(|p: (String, Value)| (p.0@, p.1))
}

proof fn lemma_attrs_set_found(attrs: Seq<(String, Value)>, name: Seq<char>, v: Value, k: int, s: String)
    requires
        0 <= k < attrs.len(),
        attrs[k].0@ == name,
        forall|j: int| k < j < attrs.len() ==> (#[trigger] attrs[j]).0@ != name,
        s@ == name,
    ensures
        attrs_view(attrs.update(k, (s, v))) == attrs_set(attrs_view(attrs), name, v),
{
    let av = attrs_view(attrs);
    assert(av[k].0 == name);
    assert forall|j: int| k < j < av.len() implies (#[trigger] av[j]).0 != name by {
        assert(av[j].0 == attrs[j].0@);
    }
    let c = choose|c: int| 0 <= c < av.len() && (#[trigger] av[c]).0 == name
        && forall|j: int| c < j < av.len() ==> (#[trigger] av[j]).0 != name;
    if c < k {
        assert(av[k].0 != name);
    } else if c > k {
        assert(av[c].0 == attrs[c].0@);
    }
    assert(c == k);
    assert(attrs_view(attrs.update(k, (s, v))) =~= av.update(k, (name, v)));
}

proof fn lemma_attrs_set_new(attrs: Seq<(String, Value)>, name: Seq<char>, v: Value, s: String)
    requires
        forall|j: int| 0 <= j < attrs.len() ==> (#[trigger] attrs[j]).0@ != name,
        s@ == name,
    ensures
        attrs_view(attrs.push((s, v))) == attrs_set(attrs_view(attrs), name, v),
{
    let av = attrs_view(attrs);
    assert forall|j: int| 0 <= j < av.len() implies (#[trigger] av[j]).0 != name by {
        assert(av[j].0 == attrs[j].0@);
    }
    assert(attrs_view(attrs.push((s, v))) =~= av.push((name, v)));
}

/// The index of the entry registered last under a name.
fn attr_index(attrs: &Vec<(String, Value)>, name: &str) -> (r: Option<usize>)
    ensures
        r matches Some(k) ==> k < attrs@.len() && attrs@[k as int].0@ == name@
            && forall|j: int| k < j < attrs@.len() ==> (#[trigger] attrs@[j]).0@ != name@,
        r is None ==> forall|j: int| 0 <= j < attrs@.len() ==> (#[trigger] attrs@[j]).0@ != name@,
{
    let mut i = attrs.len();
    while i > 0
        invariant
            i <= attrs.len(),
            forall|j: int| i <= j < attrs@.len() ==> (#[trigger] attrs@[j]).0@ != name@,
        decreases i,
    {
        if str_eq(attrs[i - 1].0.as_str(), name) {
            return Some(i - 1);
        }
        i = i - 1;
    }
    None
}

/// The index of the dict entry whose key equals `key`.
/// The position a list index names in a list of `len` items: counted from
/// the end when negative.
pub open spec fn list_index(len: int, i: int) -> Option<int> {
    if 0 <= i < len { Some(i) } else if i < 0 && 0 <= len + i { Some(len + i) } else { None }
}

/// The position of the first entry whose key equals `key`.
pub open spec fn key_pos(pairs: Seq<(Value, Value)>, key: Value) -> Option<int> {
    if exists|k: int| 0 <= k < pairs.len() && eq_spec(#[trigger] pairs[k].0, key) {
        Some(choose|k: int| 0 <= k < pairs.len() && eq_spec(#[trigger] pairs[k].0, key)
            && forall|j: int| 0 <= j < k ==> !eq_spec(#[trigger] pairs[j].0, key))
    } else {
        None
    }
}

proof fn lemma_key_pos(pairs: Seq<(Value, Value)>, key: Value, k: int)
    requires
        0 <= k < pairs.len(),
        eq_spec(pairs[k].0, key),
        forall|j: int| 0 <= j < k ==> !eq_spec(#[trigger] pairs[j].0, key),
    ensures
        key_pos(pairs, key) == Some(k),
{
    let c = choose|c: int| 0 <= c < pairs.len() && eq_spec(#[trigger] pairs[c].0, key)
        && forall|j: int| 0 <= j < c ==> !eq_spec(#[trigger] pairs[j].0, key);
    if c < k {
        assert(!eq_spec(pairs[c].0, key));
    } else if c > k {
        assert(!eq_spec(pairs[k].0, key));
    }
}

/// What `obj[index]` reads, as a relation with the value `out`: an item of
/// a list, the value of a dict's entry whose key equals the index, or a
/// character of a string as a string of its own.
pub open spec fn index_reads(heap: Seq<Object>, obj: Value, index: Value, out: Value) -> bool {
    match obj {
        Value::Ref(i) => i < heap.len() && match heap[i as int] {
            Object::List(items) => index matches Value::Int(ix) && (list_index(items@.len() as int, ix as int) matches Some(k)
                && out == items@[k]),
            Object::Dict(pairs) => key_pos(pairs@, index) matches Some(k) && out == pairs@[k].1,
            _ => false,
        },
        Value::Str(t) => index matches Value::Int(ix) && (list_index(t@.len() as int, ix as int) matches Some(k)
            && out matches Value::Str(c) && c@ == seq![t@[k]]),
        _ => false,
    }
}

/// Whether `obj[index]` reads some value.
pub open spec fn index_readable(heap: Seq<Object>, obj: Value, index: Value) -> bool {
    match obj {
        Value::Ref(i) => i < heap.len() && match heap[i as int] {
            Object::List(items) => index matches Value::Int(ix) && list_index(items@.len() as int, ix as int) is Some,
            Object::Dict(pairs) => key_pos(pairs@, index) is Some,
            _ => false,
        },
        Value::Str(t) => index matches Value::Int(ix) && list_index(t@.len() as int, ix as int) is Some,
        _ => false,
    }
}

/// Whether `obj[index] = ..` can write: a list item in range, or any key
/// of a dict.
pub open spec fn index_writable(heap: Seq<Object>, obj: Value, index: Value) -> bool {
    obj matches Value::Ref(i) && i < heap.len() && match heap[i as int] {
        Object::List(items) => index matches Value::Int(ix) && list_index(items@.len() as int, ix as int) is Some,
        Object::Dict(_) => true,
        _ => false,
    }
}

/// What `obj[index] = v` makes of the object `o0`, giving `o1`: the list
/// item takes the value; the dict entry whose key equals the index takes the
/// pair, else the pair is added at the end.
pub open spec fn index_written(o0: Object, index: Value, v: Value, o1: Object) -> bool {
    match o0 {
        Object::List(items) => index matches Value::Int(ix) && (list_index(items@.len() as int, ix as int) matches Some(k)
            && o1 matches Object::List(items1) && items1@ == items@.update(k, v)),
        Object::Dict(pairs) => o1 matches Object::Dict(pairs1) && pairs1@ == match key_pos(pairs@, index) {
            Some(k) => pairs@.update(k, (index, v)),
            None => pairs@.push((index, v)),
        },
        _ => false,
    }
}

/// The dict entries with the pair `(k, v)` set: the entry whose key equals
/// `k` takes it, else it is added at the end.
pub open spec fn dict_insert(p: Seq<(Value, Value)>, k: Value, v: Value) -> Seq<(Value, Value)> {
    match key_pos(p, k) {
        Some(j) => p.update(j, (k, v)),
        None => p.push((k, v)),
    }
}

/// The dict that the first `n` key/value pairs of `flat` (key, value, key,
/// value...) make, inserted in order.
pub open spec fn dict_from_flat(flat: Seq<Value>, n: int) -> Seq<(Value, Value)>
    decreases n,
{
    if n <= 0 {
        Seq::empty()
    } else {
        dict_insert(dict_from_flat(flat, n - 1), flat[2 * n - 2], flat[2 * n - 1])
    }
}

fn key_index(pairs: &Vec<(Value, Value)>, key: &Value) -> (r: Option<usize>)
    ensures
        r matches Some(k) ==> k < pairs@.len() && eq_spec(pairs@[k as int].0, *key),
        r matches Some(k) ==> key_pos(pairs@, *key) == Some(k as int),
        r is None ==> key_pos(pairs@, *key) is None,
        r is None ==> forall|k: int| 0 <= k < pairs@.len() ==> !eq_spec(#[trigger] pairs@[k].0, *key),
{
    let mut i: usize = 0;
    while i < pairs.len()
        invariant
            i <= pairs.len(),
            forall|k: int| 0 <= k < i ==> !eq_spec(#[trigger] pairs@[k].0, *key),
        decreases pairs.len() - i,
    {
        if eq_vals(&pairs[i].0, key) {
            proof { lemma_key_pos(pairs@, *key, i as int); }
            return Some(i);
        }
        i = i + 1;
    }
    None
}

/// A list index counted from the end when negative, if in range.
fn list_slot(len: usize, i: i64) -> (r: Option<usize>)
    ensures
        r matches Some(k) ==> k < len && (i >= 0 ==> k == i) && (i < 0 ==> k == len + i),
        r is None ==> !((0 <= i < len) || (i < 0 && 0 <= len + i)),
{
    if i >= 0 {
        if (i as u64) < (len as u64) { Some(i as usize) } else { None }
    } else {
        let back: u64 = if i == i64::MIN { 0x8000_0000_0000_0000u64 } else { (-i) as u64 };
        if back <= len as u64 { Some(len - back as usize) } else { None }
    }
}

impl Vm {
    /// `obj.attr`: the attribute of an instance.
    fn load_attr(&mut self, name: &str) -> (r: VmResult<()>)
        ensures
            final(self).frames == old(self).frames,
            final(self).max_stack == old(self).max_stack,
            final(self).max_frames == old(self).max_frames,
            final(self).heap == old(self).heap,
            r is Ok <==> old(self).stack@.len() > 0 && old(self).stack@.len() - 1 < old(self).max_stack
                && attr_of(old(self).heap@, old(self).stack@.last(), name@) is Some,
            r is Ok ==> final(self).stack@
                == old(self).stack@.drop_last().push(attr_of(old(self).heap@, old(self).stack@.last(), name@).unwrap()),
    {
        let obj = self.pop()?;
        match &obj {
            Value::Int(_) | Value::Bool(_) | Value::NoneVal | Value::Float(_) => {
                let mut m = debug_value(&obj);
                m.append(" has no attributes");
                return Err(err(VmErrorKind::TypeError("attribute access"), m));
            },
            _ => {},
        }
        let found: Option<Value> = match &obj {
            Value::Ref(i) => {
                if *i < self.heap.len() {
                    match &self.heap[*i] {
                        Object::Instance { attrs, .. } => match attr_index(attrs, name) {
                            Some(k) => {
                                proof { lemma_attr_lookup(attrs@, name@, k as int); }
                                Some(clone_value(&attrs[k].1))
                            },
                            None => {
                                proof { lemma_attr_lookup(attrs@, name@, -1); }
                                None
                            },
                        },
                        _ => None,
                    }
                } else {
                    None
                }
            },
            _ => None,
        };
        match found {
            Some(v) => self.push(v),
            None => Err(err(VmErrorKind::TypeError("attribute"), method_message("Object has no attribute '", name, "'", "", ""))),
        }
    }

    /// `obj.attr = value` on an instance.
    fn store_attr(&mut self, name: &str) -> (r: VmResult<()>)
        ensures
            final(self).frames == old(self).frames,
            final(self).max_stack == old(self).max_stack,
            final(self).max_frames == old(self).max_frames,
            r is Ok <==> old(self).stack@.len() >= 2 && (old(self).stack@[old(self).stack@.len() - 2] matches Value::Ref(i)
                && i < old(self).heap@.len() && old(self).heap@[i as int] is Instance),
            r is Ok ==> final(self).stack@ == old(self).stack@.subrange(0, old(self).stack@.len() - 2)
                && (old(self).stack@[old(self).stack@.len() - 2] matches Value::Ref(i)
                && final(self).heap@.len() == old(self).heap@.len()
                && (forall|j: int| 0 <= j < old(self).heap@.len() && j != i ==> final(self).heap@[j] == old(self).heap@[j])
                && (final(self).heap@[i as int] matches Object::Instance { class_id, attrs }
                    && old(self).heap@[i as int] matches Object::Instance { class_id: c0, attrs: a0 }
                    && class_id == c0
                    && attrs_view(attrs@) == attrs_set(attrs_view(a0@), name@, old(self).stack@.last()))),
    {
        let value = self.pop()?;
        let obj = self.pop()?;
        match obj {
            Value::Int(_) | Value::Bool(_) | Value::NoneVal | Value::Float(_) => {
                return Err(err(VmErrorKind::TypeError("attribute assignment"), "Cannot set attributes on non-object".to_owned()));
            },
            Value::Ref(i) => {
                if i < self.heap.len() {
                    let is_instance = match &self.heap[i] {
                        Object::Instance { .. } => true,
                        _ => false,
                    };
                    if is_instance {
                        let mut slot = Object::List(Vec::new());
                        self.heap.set_and_swap(i, &mut slot);
                        match slot {
                            Object::Instance { class_id, attrs } => {
                                let mut attrs = attrs;
                                let ghost a0 = attrs@;
                                match attr_index(&attrs, name) {
                                    Some(k) => {
                                        let s = name.to_owned();
                                        proof { lemma_attrs_set_found(a0, name@, value, k as int, s); }
                                        attrs.set(k, (s, value));
                                    },
                                    None => {
                                        let s = name.to_owned();
                                        proof { lemma_attrs_set_new(a0, name@, value, s); }
                                        attrs.push((s, value));
                                    },
                                }
                                self.heap.set(i, Object::Instance { class_id, attrs });
                            },
                            other => {
                                self.heap.set(i, other);
                            },
                        }
                        return Ok(());
                    }
                }
            },
            _ => {},
        }
        Err(err(VmErrorKind::TypeError("attribute assignment"), "Cannot add attributes to immutable object".to_owned()))
    }

    /// `[a, b, ...]` from the top `n` values.
    fn build_list(&mut self, n: usize) -> (r: VmResult<()>)
        ensures
            final(self).frames == old(self).frames,
            final(self).max_stack == old(self).max_stack,
            final(self).max_frames == old(self).max_frames,
            r is Ok <==> old(self).stack@.len() >= n && old(self).stack@.len() - n < old(self).max_stack,
            r is Ok ==> final(self).heap@.drop_last() == old(self).heap@
                && final(self).heap@.len() == old(self).heap@.len() + 1
                && (final(self).heap@.last() matches Object::List(items)
                    && items@ == old(self).stack@.subrange(old(self).stack@.len() - n, old(self).stack@.len() as int))
                && final(self).stack@ == old(self).stack@.subrange(0, old(self).stack@.len() - n)
                    .push(Value::Ref(old(self).heap@.len() as usize)),
    {
        let items = self.pop_n(n)?;
        let v = self.new_object(Object::List(items));
        let r = self.push(v);
        assert(self.heap@.drop_last() =~= old(self).heap@);
        r
    }

    /// `{k: v, ...}` from the top `2n` values (key, value, key, value...);
    /// a later equal key replaces the earlier value.
    #[verifier::spinoff_prover]
    #[verifier::rlimit(40)]
    fn build_dict(&mut self, n: usize) -> (r: VmResult<()>)
        requires
            n <= 0xffff,
        ensures
            final(self).frames == old(self).frames,
            final(self).max_stack == old(self).max_stack,
            final(self).max_frames == old(self).max_frames,
            r is Ok <==> old(self).stack@.len() >= 2 * n && old(self).stack@.len() - 2 * n < old(self).max_stack,
            r is Ok ==> final(self).heap@.drop_last() == old(self).heap@
                && final(self).heap@.len() == old(self).heap@.len() + 1
                && (final(self).heap@.last() matches Object::Dict(pairs) && pairs@ == dict_from_flat(
                    old(self).stack@.subrange(old(self).stack@.len() - 2 * n, old(self).stack@.len() as int), n as int))
                && final(self).stack@ == old(self).stack@.subrange(0, old(self).stack@.len() - 2 * n)
                    .push(Value::Ref(old(self).heap@.len() as usize)),
    {
        let flat = self.pop_n(2 * n)?;
        let mut pairs: Vec<(Value, Value)> = Vec::new();
        let mut k: usize = 0;
        while k < n
            invariant
                k <= n,
                n <= 0xffff,
                flat@.len() == 2 * n,
                pairs@ == dict_from_flat(flat@, k as int),
            decreases n - k,
        {
            let key = clone_value(&flat[2 * k]);
            let val = clone_value(&flat[2 * k + 1]);
            let ghost p0 = pairs@;
            let ghost kk = (k + 1) as int;
            assert(dict_from_flat(flat@, kk) == dict_insert(p0, flat@[2 * kk - 2], flat@[2 * kk - 1]));
            match key_index(&pairs, &key) {
                Some(j) => {
                    pairs.set(j, (key, val));
                    assert(pairs@ =~= dict_insert(p0, key, val));
                },
                None => {
                    pairs.push((key, val));
                    assert(pairs@ =~= dict_insert(p0, key, val));
                },
            }
            k = k + 1;
        }
        let v = self.new_object(Object::Dict(pairs));
        let r = self.push(v);
        assert(self.heap@.drop_last() =~= old(self).heap@);
        r
    }

    /// `obj[index]`.
    #[verifier::spinoff_prover]
    #[verifier::rlimit(60)]
    fn load_index(&mut self) -> (r: VmResult<()>)
        ensures
            final(self).frames == old(self).frames,
            final(self).max_stack == old(self).max_stack,
            final(self).max_frames == old(self).max_frames,
            final(self).heap == old(self).heap,
            r is Ok <==> old(self).stack@.len() >= 2 && old(self).stack@.len() - 2 < old(self).max_stack
                && index_readable(old(self).heap@, top2(old(self).stack@).0, top2(old(self).stack@).1),
            r is Ok ==> final(self).stack@.len() == old(self).stack@.len() - 1
                && final(self).stack@.drop_last() == below2(old(self).stack@)
                && index_reads(old(self).heap@, top2(old(self).stack@).0, top2(old(self).stack@).1, final(self).stack@.last()),
    {
        let index = self.pop()?;
        let obj = self.pop()?;
        let out: Value = match &obj {
            Value::Ref(i) => {
                if *i >= self.heap.len() {
                    return Err(err(VmErrorKind::TypeError("index"), "object is not subscriptable".to_owned()));
                }
                match &self.heap[*i] {
                    Object::List(items) => match &index {
                        Value::Int(ix) => match list_slot(items.len(), *ix) {
                            Some(k) => {
                                assert(list_index(items@.len() as int, *ix as int) == Some(k as int));
                                clone_value(&items[k])
                            },
                            None => {
                                return Err(err(VmErrorKind::TypeError("index"), "list index out of range".to_owned()));
                            },
                        },
                        _ => {
                            return Err(err(VmErrorKind::TypeError("index"), "list indices must be integers".to_owned()));
                        },
                    },
                    Object::Dict(pairs) => match key_index(pairs, &index) {
                        Some(k) => {
                            assert(key_pos(pairs@, index) == Some(k as int));
                            clone_value(&pairs[k].1)
                        },
                        None => {
                            return Err(err(VmErrorKind::TypeError("key"), "key not found".to_owned()));
                        },
                    },
                    _ => {
                        return Err(err(VmErrorKind::TypeError("index"), "object is not subscriptable".to_owned()));
                    },
                }
            },
            Value::Str(t) => match &index {
                Value::Int(ix) => {
                    let chars = crate::lexer::str_chars(t.as_str());
                    match list_slot(chars.len(), *ix) {
                        Some(k) => {
                            let mut c = String::new();
                            crate::text::push_char(&mut c, chars[k]);
                            assert(c@ =~= seq![t@[k as int]]);
                            Value::Str(c)
                        },
                        None => {
                            return Err(err(VmErrorKind::TypeError("index"), "string index out of range".to_owned()));
                        },
                    }
                },
                _ => {
                    return Err(err(VmErrorKind::TypeError("index"), "string indices must be integers".to_owned()));
                },
            },
            _ => {
                return Err(err(VmErrorKind::TypeError("index"), "object is not subscriptable".to_owned()));
            },
        };
        assert(index_reads(old(self).heap@, obj, index, out));
        let r = self.push(out);
        proof {
            if r is Ok {
                assert(self.stack@.drop_last() =~= below2(old(self).stack@));
            }
        }
        r
    }

    /// `obj[index] = value`.
    #[verifier::spinoff_prover]
    fn store_index(&mut self) -> (r: VmResult<()>)
        ensures
            final(self).frames == old(self).frames,
            final(self).max_stack == old(self).max_stack,
            final(self).max_frames == old(self).max_frames,
            r is Ok <==> old(self).stack@.len() >= 3 && index_writable(old(self).heap@,
                old(self).stack@[old(self).stack@.len() - 3], old(self).stack@[old(self).stack@.len() - 2]),
            r is Ok ==> final(self).stack@ == old(self).stack@.subrange(0, old(self).stack@.len() - 3)
                && (old(self).stack@[old(self).stack@.len() - 3] matches Value::Ref(i)
                && final(self).heap@.len() == old(self).heap@.len()
                && (forall|j: int| 0 <= j < old(self).heap@.len() && j != i ==> final(self).heap@[j] == old(self).heap@[j])
                && index_written(old(self).heap@[i as int], old(self).stack@[old(self).stack@.len() - 2],
                    old(self).stack@.last(), final(self).heap@[i as int])),
    {
        let value = self.pop()?;
        let index = self.pop()?;
        let obj = self.pop()?;
        let i = match obj {
            Value::Ref(i) => i,
            _ => {
                return Err(err(VmErrorKind::TypeError("index"), "object does not support item assignment".to_owned()));
            },
        };
        if i >= self.heap.len() {
            return Err(err(VmErrorKind::TypeError("index"), "object does not support item assignment".to_owned()));
        }
        let mut slot = Object::List(Vec::new());
        self.heap.set_and_swap(i, &mut slot);
        let result: VmResult<()> = match slot {
            Object::List(items) => {
                let mut items = items;
                let res = match &index {
                    Value::Int(ix) => match list_slot(items.len(), *ix) {
                        Some(k) => {
                            assert(list_index(items@.len() as int, *ix as int) == Some(k as int));
                            items.set(k, value);
                            Ok(())
                        },
                        None => Err(err(VmErrorKind::TypeError("index"), "list assignment index out of range".to_owned())),
                    },
                    _ => Err(err(VmErrorKind::TypeError("index"), "list indices must be integers".to_owned())),
                };
                self.heap.set(i, Object::List(items));
                res
            },
            Object::Dict(pairs) => {
                let mut pairs = pairs;
                match key_index(&pairs, &index) {
                    Some(k) => {
                        pairs.set(k, (index, value));
                    },
                    None => {
                        pairs.push((index, value));
                    },
                }
                self.heap.set(i, Object::Dict(pairs));
                Ok(())
            },
            other => {
                self.heap.set(i, other);
                Err(err(VmErrorKind::TypeError("index"), "object does not support item assignment".to_owned()))
            },
        };
        result
    }

    /// A closure of function `fid` over the top `n` values.
    fn make_closure(&mut self, fid: u16, n: usize) -> (r: VmResult<()>)
        ensures
            final(self).frames == old(self).frames,
            final(self).max_stack == old(self).max_stack,
            final(self).max_frames == old(self).max_frames,
            r is Ok <==> old(self).stack@.len() >= n && old(self).stack@.len() - n < old(self).max_stack,
            r is Ok ==> final(self).heap@.drop_last() == old(self).heap@
                && final(self).heap@.len() == old(self).heap@.len() + 1
                && (final(self).heap@.last() matches Object::Closure { func_id, captures } && func_id == fid
                    && captures@ == old(self).stack@.subrange(old(self).stack@.len() - n, old(self).stack@.len() as int))
                && final(self).stack@ == old(self).stack@.subrange(0, old(self).stack@.len() - n)
                    .push(Value::Ref(old(self).heap@.len() as usize)),
    {
        let captures = self.pop_n(n)?;
        let v = self.new_object(Object::Closure { func_id: fid, captures });
        let r = self.push(v);
        assert(self.heap@.drop_last() =~= old(self).heap@);
        r
    }
}

/// The range object that `range(..)` makes of its arguments: one to three
/// integers (stop; start, stop; start, stop, step), a step other than zero.
pub open spec fn range_object(args: Seq<Value>) -> Option<Object> {
    if !(forall|k: int| 0 <= k < args.len() ==> #[trigger] args[k] is Int) {
        None
    } else if args.len() == 1 {
        Some(Object::Range { current: 0, stop: args[0]->Int_0, step: 1 })
    } else if args.len() == 2 {
        Some(Object::Range { current: args[0]->Int_0, stop: args[1]->Int_0, step: 1 })
    } else if args.len() == 3 && args[2]->Int_0 != 0 {
        Some(Object::Range { current: args[0]->Int_0, stop: args[1]->Int_0, step: args[2]->Int_0 })
    } else {
        None
    }
}


/// The index of the first argument from `i` on that is not an integer.
pub open spec fn first_non_int(args: Seq<Value>, i: int) -> Option<int>
    decreases args.len() - i,
{
    if i < 0 || i >= args.len() {
        None
    } else if args[i] is Int {
        first_non_int(args, i + 1)
    } else {
        Some(i)
    }
}

/// The function of the closure at heap index `i`, if there is one there.
pub open spec fn closure_function(heap: Seq<Object>, i: int) -> Option<u16> {
    if 0 <= i < heap.len() {
        match heap[i] {
            Object::Closure { func_id, .. } => Some(func_id),
            _ => None,
        }
    } else {
        None
    }
}

/// The method `name` of an instance receiver: `Some(Some(f))` where its
/// class has one (the entry recorded last), `Some(None)` where it is an
/// instance whose class is unknown or has none, `None` where the receiver is
/// no instance.
pub open spec fn instance_method(heap: Seq<Object>, module: &Module, receiver: Value, name: Seq<char>) -> Option<Option<u16>> {
    match receiver {
        Value::Ref(i) => if i < heap.len() {
            match heap[i as int] {
                Object::Instance { class_id, .. } => if (class_id as int) < module.classes@.len() {
                    Some(crate::vm::compiler::slot_lookup(module.classes@[class_id as int].methods@, name))
                } else {
                    Some(None)
                },
                _ => None,
            }
        } else {
            None
        },
        _ => None,
    }
}

/// The top two values of a stack, the one below first.
pub open spec fn top2(s: Seq<Value>) -> (Value, Value) {
    (s[s.len() - 2], s[s.len() - 1])
}

/// The stack without its top two values.
pub open spec fn below2(s: Seq<Value>) -> Seq<Value> {
    s.subrange(0, s.len() - 2)
}

/// What one instruction does to the value stack `s0`, giving `s1` and the
/// outcome `r`: constants push, arithmetic and comparisons replace their
/// operands by the result. Instructions not listed here are stated by
/// their other clauses only.
pub open spec fn instr_effect(ins: Instruction, s0: Seq<Value>, s1: Seq<Value>, max: nat, r: VmResult<Flow>) -> bool {
    match ins {
        Instruction::ConstI64(i) => s0.len() < max ==> (r is Ok && s1 == s0.push(Value::Int(i))),
        Instruction::True => s0.len() < max ==> (r is Ok && s1 == s0.push(Value::Bool(true))),
        Instruction::False => s0.len() < max ==> (r is Ok && s1 == s0.push(Value::Bool(false))),
        Instruction::PushNone => s0.len() < max ==> (r is Ok && s1 == s0.push(Value::NoneVal)),
        Instruction::Pop => (r is Ok <==> s0.len() > 0) && (r is Ok ==> s1 == s0.drop_last()),
        Instruction::Add | Instruction::Sub | Instruction::Mul | Instruction::Div | Instruction::Mod => 2 <= s0.len() <= max ==> match top2(s0) {
            (Value::Int(a), Value::Int(b)) => match ins {
                Instruction::Add => r is Ok && s1 == below2(s0).push(Value::Int(a.wrapping_add(b))),
                Instruction::Sub => r is Ok && s1 == below2(s0).push(Value::Int(a.wrapping_sub(b))),
                Instruction::Mul => r is Ok && s1 == below2(s0).push(Value::Int(a.wrapping_mul(b))),
                Instruction::Div => if b == 0 {
                    r matches Err(e) && e.kind == VmErrorKind::ZeroDivision
                } else {
                    r is Ok && s1 == below2(s0).push(Value::Int(div_spec(a, b)))
                },
                _ => if b == 0 {
                    r matches Err(e) && e.kind == VmErrorKind::ZeroDivision
                } else {
                    r is Ok && s1 == below2(s0).push(Value::Int(rem_spec(a, b)))
                },
            },
            (Value::Str(x), Value::Str(y)) => match ins {
                Instruction::Add => r is Ok && s1.len() == s0.len() - 1 && s1.drop_last() == below2(s0)
                    && (s1.last() matches Value::Str(z) && z@ == x@ + y@),
                Instruction::Mul => r is Err,
                _ => r is Err,
            },
            (Value::Str(_), Value::Int(_)) | (Value::Int(_), Value::Str(_)) => match ins {
                Instruction::Mul => true,
                _ => r is Err,
            },
            _ => r is Err,
        },
        Instruction::Eq => 2 <= s0.len() <= max ==> (r is Ok && s1 == below2(s0).push(Value::Bool(eq_spec(top2(s0).0, top2(s0).1)))),
        Instruction::Ne => 2 <= s0.len() <= max ==> (r is Ok && s1 == below2(s0).push(Value::Bool(!eq_spec(top2(s0).0, top2(s0).1)))),
        Instruction::Lt => 2 <= s0.len() <= max ==> rel_effect(RelOp::Lt, s0, s1, r),
        Instruction::Le => 2 <= s0.len() <= max ==> rel_effect(RelOp::Le, s0, s1, r),
        Instruction::Gt => 2 <= s0.len() <= max ==> rel_effect(RelOp::Gt, s0, s1, r),
        Instruction::Ge => 2 <= s0.len() <= max ==> rel_effect(RelOp::Ge, s0, s1, r),
        Instruction::Not => 1 <= s0.len() <= max ==> match s0.last() {
            Value::Bool(b) => r is Ok && s1 == s0.drop_last().push(Value::Bool(!b)),
            Value::Int(i) => r is Ok && s1 == s0.drop_last().push(Value::Bool(i == 0)),
            _ => r is Err,
        },
        Instruction::Neg => 1 <= s0.len() <= max ==> match s0.last() {
            Value::Int(i) => r is Ok && s1 == s0.drop_last().push(Value::Int(neg_spec(i))),
            _ => r is Err,
        },
        _ => true,
    }
}

/// The instructions that only compute on the value stack.
pub open spec fn pure_instr(ins: Instruction) -> bool {
    match ins {
        Instruction::ConstI64(_) | Instruction::True | Instruction::False | Instruction::PushNone | Instruction::Pop
        | Instruction::Add | Instruction::Sub | Instruction::Mul | Instruction::Div | Instruction::Mod
        | Instruction::Eq | Instruction::Ne | Instruction::Lt | Instruction::Le | Instruction::Gt | Instruction::Ge
        | Instruction::Not | Instruction::Neg => true,
        _ => false,
    }
}

/// What executing one instruction does to a stack of at most `max` values:
/// `Some(Some(s1))` when it succeeds leaving `s1`, `Some(None)` when it
/// fails, `None` where this summary does not say (instructions that do
/// more than compute on the stack, a full stack, or results that are
/// strings).
pub open spec fn pure_step(ins: Instruction, s: Seq<Value>, max: nat) -> Option<Option<Seq<Value>>> {
    match ins {
        Instruction::ConstI64(i) => if s.len() < max { Some(Some(s.push(Value::Int(i)))) } else { None },
        Instruction::True => if s.len() < max { Some(Some(s.push(Value::Bool(true)))) } else { None },
        Instruction::False => if s.len() < max { Some(Some(s.push(Value::Bool(false)))) } else { None },
        Instruction::PushNone => if s.len() < max { Some(Some(s.push(Value::NoneVal))) } else { None },
        Instruction::Pop => if s.len() > 0 { Some(Some(s.drop_last())) } else { Some(None) },
        Instruction::Add | Instruction::Sub | Instruction::Mul | Instruction::Div | Instruction::Mod =>
            if 2 <= s.len() <= max {
                match top2(s) {
                    (Value::Int(a), Value::Int(b)) => match ins {
                        Instruction::Add => Some(Some(below2(s).push(Value::Int(a.wrapping_add(b))))),
                        Instruction::Sub => Some(Some(below2(s).push(Value::Int(a.wrapping_sub(b))))),
                        Instruction::Mul => Some(Some(below2(s).push(Value::Int(a.wrapping_mul(b))))),
                        Instruction::Div => if b == 0 { Some(None) } else { Some(Some(below2(s).push(Value::Int(div_spec(a, b))))) },
                        _ => if b == 0 { Some(None) } else { Some(Some(below2(s).push(Value::Int(rem_spec(a, b))))) },
                    },
                    (Value::Str(_), Value::Str(_)) => match ins {
                        Instruction::Add => None,
                        _ => Some(None),
                    },
                    (Value::Str(_), Value::Int(_)) | (Value::Int(_), Value::Str(_)) => match ins {
                        Instruction::Mul => None,
                        _ => Some(None),
                    },
                    _ => Some(None),
                }
            } else {
                None
            },
        Instruction::Eq => if 2 <= s.len() <= max {
            Some(Some(below2(s).push(Value::Bool(eq_spec(top2(s).0, top2(s).1)))))
        } else {
            None
        },
        Instruction::Ne => if 2 <= s.len() <= max {
            Some(Some(below2(s).push(Value::Bool(!eq_spec(top2(s).0, top2(s).1)))))
        } else {
            None
        },
        Instruction::Lt | Instruction::Le | Instruction::Gt | Instruction::Ge => if 2 <= s.len() <= max {
            let op = match ins {
                Instruction::Lt => RelOp::Lt,
                Instruction::Le => RelOp::Le,
                Instruction::Gt => RelOp::Gt,
                _ => RelOp::Ge,
            };
            match rel_spec(op, top2(s).0, top2(s).1) {
                Some(b) => Some(Some(below2(s).push(Value::Bool(b)))),
                None => Some(None),
            }
        } else {
            None
        },
        Instruction::Not => if 1 <= s.len() <= max {
            match s.last() {
                Value::Bool(b) => Some(Some(s.drop_last().push(Value::Bool(!b)))),
                Value::Int(i) => Some(Some(s.drop_last().push(Value::Bool(i == 0)))),
                _ => Some(None),
            }
        } else {
            None
        },
        Instruction::Neg => if 1 <= s.len() <= max {
            match s.last() {
                Value::Int(i) => Some(Some(s.drop_last().push(Value::Int(neg_spec(i))))),
                _ => Some(None),
            }
        } else {
            None
        },
        _ => None,
    }
}

/// How a value decides a conditional jump: booleans by themselves,
/// integers by being non-zero.
pub open spec fn truth(v: Value) -> Option<bool> {
    match v {
        Value::Bool(b) => Some(b),
        Value::Int(i) => Some(i != 0),
        _ => None,
    }
}

/// What executing one instruction does within a function: `next` is the
/// position after the instruction, `s` the value stack and `l` the locals.
/// `Some(Some((ip, s1, l1)))` when it succeeds and execution goes on at
/// `ip`, `Some(None)` when it fails, `None` where this summary does not say
/// (calls, returns, globals, objects, and what `pure_step` leaves open).
pub open spec fn instr_step(ins: Instruction, next: usize, s: Seq<Value>, l: Seq<Value>, max: nat)
    -> Option<Option<(usize, Seq<Value>, Seq<Value>)>>
{
    if pure_instr(ins) {
        match pure_step(ins, s, max) {
            Some(Some(s1)) => Some(Some((next, s1, l))),
            Some(None) => Some(None),
            None => None,
        }
    } else {
        match ins {
            Instruction::LoadLocal(i) => if (i as int) < l.len() && s.len() < max {
                Some(Some((next, s.push(l[i as int]), l)))
            } else {
                Some(None)
            },
            Instruction::StoreLocal(i) => if s.len() > 0 && (i as int) < l.len() {
                Some(Some((next, s.drop_last(), l.update(i as int, s.last()))))
            } else {
                Some(None)
            },
            Instruction::Jump(off) => Some(Some((jump_target(next, off), s, l))),
            Instruction::JumpIfFalse(off) => if s.len() > 0 {
                match truth(s.last()) {
                    Some(b) => Some(Some((if b { next } else { jump_target(next, off) }, s.drop_last(), l))),
                    None => Some(None),
                }
            } else {
                Some(None)
            },
            Instruction::JumpIfTrue(off) => if s.len() > 0 {
                match truth(s.last()) {
                    Some(b) => Some(Some((if b { jump_target(next, off) } else { next }, s.drop_last(), l))),
                    None => Some(None),
                }
            } else {
                Some(None)
            },
            _ => None,
        }
    }
}

/// A frame as the model sees it: function, next instruction, the stack
/// height to return to, and the locals.
pub open spec fn frame_view(f: Frame) -> (usize, usize, usize, Seq<Value>) {
    (f.func_id, f.ip, f.ret_stack_size, f.locals@)
}

/// The model of a stack of frames.
pub open spec fn frames_view(fs: Seq<Frame>) -> Seq<(usize, usize, usize, Seq<Value>)> {
    Seq::new(fs.len(), |i: int| frame_view(fs[i]))
}

/// The locals of a called function: the arguments, then None up to the
/// number of locals the function has.
pub open spec fn call_locals(args: Seq<Value>, n: nat) -> Seq<Value> {
    args + Seq::new(if n > args.len() { (n - args.len()) as nat } else { 0 }, |i: int| Value::NoneVal)
}

/// The result of one step of the machine: the next frames, stack and
/// globals, or the end of the run with the value the outermost function
/// returned.
pub enum MachineStep {
    Next(Seq<(usize, usize, usize, Seq<Value>)>, Seq<Value>, Seq<Option<Value>>),
    Done(Option<Value>, Seq<Option<Value>>),
}

/// Leaving the top frame: its return value is the top value above the
/// frame's base, if any; the stack is cut back to the base; the value is
/// pushed for the caller, where there is one.
pub open spec fn return_step(fs: Seq<(usize, usize, usize, Seq<Value>)>, s: Seq<Value>, g: Seq<Option<Value>>, max: nat)
    -> Option<Option<MachineStep>>
{
    let base = fs.last().2;
    let ret = if s.len() > base { Some(s.last()) } else { None };
    let s1 = if s.len() > base { s.subrange(0, base as int) } else { s };
    let fs1 = fs.drop_last();
    if fs1.len() == 0 {
        Some(Some(MachineStep::Done(ret, g)))
    } else {
        match ret {
            Some(v) => if s1.len() < max { Some(Some(MachineStep::Next(fs1, s1.push(v), g))) } else { Some(None) },
            None => Some(Some(MachineStep::Next(fs1, s1, g))),
        }
    }
}

/// What one instruction does when the top frame `fs.last()` already points
/// past it: `Some(Some(..))` on success, `Some(None)` on an error, `None`
/// where the model does not say (objects, containers, strings, closures,
/// builtins, and what `instr_step` leaves open).
pub open spec fn instr_machine_step(fns: Seq<FunctionCode>, ins: Instruction, fs: Seq<(usize, usize, usize, Seq<Value>)>,
    s: Seq<Value>, g: Seq<Option<Value>>, max: nat, maxf: nat) -> Option<Option<MachineStep>>
{
    let top = fs.last();
    match instr_step(ins, top.1, s, top.3, max) {
        Some(Some((ip1, s1, l1))) => Some(Some(MachineStep::Next(fs.drop_last().push((top.0, ip1, top.2, l1)), s1, g))),
        Some(None) => Some(None),
        None => match ins {
            Instruction::LoadGlobal(ix) => if (ix as int) < g.len() && g[ix as int] is Some && s.len() < max {
                Some(Some(MachineStep::Next(fs, s.push(g[ix as int].unwrap()), g)))
            } else {
                Some(None)
            },
            Instruction::StoreGlobal(ix) => if s.len() > 0 && (ix as int) < g.len() {
                Some(Some(MachineStep::Next(fs, s.drop_last(), g.update(ix as int, Some(s.last())))))
            } else {
                Some(None)
            },
            Instruction::Call(f, argc) => if fs.len() < maxf && (argc as int) <= s.len() && (f as int) < fns.len() {
                Some(Some(MachineStep::Next(
                    fs.push((f as usize, 0usize, (s.len() - argc) as usize,
                        call_locals(s.subrange(s.len() - argc, s.len() as int), fns[f as int].num_locals as nat))),
                    s.subrange(0, s.len() - argc),
                    g,
                )))
            } else {
                Some(None)
            },
            Instruction::Return => return_step(fs, s, g, max),
            _ => None,
        },
    }
}

/// One step of the machine on the functions `fns`: leave the top frame where it ran
/// past its code, else execute its next instruction.
pub open spec fn machine_step(fns: Seq<FunctionCode>, fs: Seq<(usize, usize, usize, Seq<Value>)>, s: Seq<Value>,
    g: Seq<Option<Value>>, max: nat, maxf: nat) -> Option<Option<MachineStep>>
{
    if fs.len() == 0 {
        Some(Some(MachineStep::Done(None, g)))
    } else if fs.last().0 as int >= fns.len() {
        None
    } else if fs.last().1 as int >= fns[fs.last().0 as int].code@.len() {
        return_step(fs, s, g, max)
    } else {
        let top = fs.last();
        instr_machine_step(fns, fns[top.0 as int].code@[top.1 as int],
            fs.drop_last().push((top.0, (top.1 + 1) as usize, top.2, top.3)), s, g, max, maxf)
    }
}

/// Running the machine for at most `fuel` steps: `Some(Some((v, g)))` when
/// the outermost function returns `v`, leaving the globals `g`;
/// `Some(None)` on an error; `None` where the steps run out or the model
/// does not say.
pub open spec fn machine_steps(fns: Seq<FunctionCode>, fs: Seq<(usize, usize, usize, Seq<Value>)>, s: Seq<Value>,
    g: Seq<Option<Value>>, fuel: nat, max: nat, maxf: nat) -> Option<Option<(Option<Value>, Seq<Option<Value>>)>>
    decreases fuel,
{
    if fuel == 0 {
        None
    } else {
        match machine_step(fns, fs, s, g, max, maxf) {
            Some(Some(MachineStep::Next(fs1, s1, g1))) => machine_steps(fns, fs1, s1, g1, (fuel - 1) as nat, max, maxf),
            Some(Some(MachineStep::Done(v, g1))) => Some(Some((v, g1))),
            Some(None) => Some(None),
            None => None,
        }
    }
}

/// Running a module from the start of its main function, with the globals
/// it has, within the steps one call of `run_with_io` takes.
pub open spec fn module_run(vm: Vm, m: Module) -> Option<Option<(Option<Value>, Seq<Option<Value>>)>> {
    machine_steps(m.functions@, seq![(0usize, 0usize, 0usize, Seq::new(m.functions@[0].num_locals as nat, |i: int| Value::NoneVal))],
        Seq::empty(), m.globals@, 0xffff_ffff_ffff_ffff, vm.max_stack as nat, vm.max_frames as nat)
}

proof fn lemma_frames_view_update(a: Seq<Frame>, b: Seq<Frame>)
    requires
        a.len() == b.len(),
        a.len() > 0,
        b.drop_last() == a.drop_last(),
    ensures
        frames_view(b) == frames_view(a).drop_last().push(frame_view(b.last())),
{
    assert forall|k: int| 0 <= k < a.len() - 1 implies b[k] == a[k] by {
        assert(b[k] == b.drop_last()[k]);
        assert(a[k] == a.drop_last()[k]);
    }
    assert(frames_view(b) =~= frames_view(a).drop_last().push(frame_view(b.last())));
}

proof fn lemma_machine_steps_unfold(fns: Seq<FunctionCode>, fs: Seq<(usize, usize, usize, Seq<Value>)>, s: Seq<Value>,
    g: Seq<Option<Value>>, fuel: nat, max: nat, maxf: nat)
    requires
        fuel > 0,
    ensures
        machine_steps(fns, fs, s, g, fuel, max, maxf) == match machine_step(fns, fs, s, g, max, maxf) {
            Some(Some(MachineStep::Next(fs1, s1, g1))) => machine_steps(fns, fs1, s1, g1, (fuel - 1) as nat, max, maxf),
            Some(Some(MachineStep::Done(v, g1))) => Some(Some((v, g1))),
            Some(None) => Some(None),
            None => None,
        },
{
}

/// What one instruction of straight-line code does to the stack and the
/// globals: the stack instructions as `pure_step` states them, and the
/// reads and writes of globals; `None` for anything else.
pub open spec fn line_step(ins: Instruction, s: Seq<Value>, g: Seq<Option<Value>>, max: nat)
    -> Option<Option<(Seq<Value>, Seq<Option<Value>>)>>
{
    if pure_instr(ins) {
        match pure_step(ins, s, max) {
            Some(Some(s1)) => Some(Some((s1, g))),
            Some(None) => Some(None),
            None => None,
        }
    } else {
        match ins {
            Instruction::LoadGlobal(ix) => if (ix as int) < g.len() && g[ix as int] is Some && s.len() < max {
                Some(Some((s.push(g[ix as int].unwrap()), g)))
            } else {
                Some(None)
            },
            Instruction::StoreGlobal(ix) => if s.len() > 0 && (ix as int) < g.len() {
                Some(Some((s.drop_last(), g.update(ix as int, Some(s.last())))))
            } else {
                Some(None)
            },
            _ => None,
        }
    }
}

/// Straight-line code run from stack `s` and globals `g`, each instruction
/// as `line_step` states it: a failure or an unstated step ends it.
pub open spec fn line_run(code: Seq<Instruction>, s: Seq<Value>, g: Seq<Option<Value>>, max: nat)
    -> Option<Option<(Seq<Value>, Seq<Option<Value>>)>>
    decreases code.len(),
{
    if code.len() == 0 {
        Some(Some((s, g)))
    } else {
        match line_run(code.drop_last(), s, g, max) {
            Some(Some((t, h))) => line_step(code.last(), t, h, max),
            o => o,
        }
    }
}

/// Running two pieces of straight-line code one after the other.
pub proof fn lemma_line_run_append(a: Seq<Instruction>, b: Seq<Instruction>, s: Seq<Value>, g: Seq<Option<Value>>, max: nat)
    ensures
        line_run(a + b, s, g, max) == match line_run(a, s, g, max) {
            Some(Some((t, h))) => line_run(b, t, h, max),
            o => o,
        },
    decreases b.len(),
{
    if b.len() == 0 {
        assert(a + b =~= a);
    } else {
        lemma_line_run_append(a, b.drop_last(), s, g, max);
        assert((a + b).drop_last() =~= a + b.drop_last());
    }
}

/// A main function made of straight-line code and a final `Return`, run
/// from instruction `k` with one frame, returns the top of the stack that
/// the rest of the code leaves (None when it leaves none) and the globals
/// it leaves, or fails where the code fails.
pub proof fn lemma_main_line_run(fns: Seq<FunctionCode>, c: Seq<Instruction>, k: int, l: Seq<Value>, s: Seq<Value>,
    g: Seq<Option<Value>>, fuel: nat, max: nat, maxf: nat)
    requires
        fns.len() > 0,
        fns[0].code@ == c.push(Instruction::Return),
        c.len() < usize::MAX,
        0 <= k <= c.len(),
        fuel >= c.len() - k + 1,
        line_run(c.subrange(k, c.len() as int), s, g, max) is Some,
    ensures
        machine_steps(fns, seq![(0usize, k as usize, 0usize, l)], s, g, fuel, max, maxf)
            == match line_run(c.subrange(k, c.len() as int), s, g, max) {
                Some(Some((s1, g1))) => Some(Some((if s1.len() > 0 { Some(s1.last()) } else { None }, g1))),
                Some(None) => Some(None),
                None => None,
            },
    decreases c.len() - k,
{
    let fs = seq![(0usize, k as usize, 0usize, l)];
    let code = fns[0].code@;
    lemma_machine_steps_unfold(fns, fs, s, g, fuel, max, maxf);
    assert(fs.last() == (0usize, k as usize, 0usize, l));
    assert(fs.drop_last().push((0usize, (k + 1) as usize, 0usize, l)) =~= seq![(0usize, (k + 1) as usize, 0usize, l)]);
    if k == c.len() {
        assert(code[k] == Instruction::Return);
        assert(c.subrange(k, c.len() as int) =~= Seq::<Instruction>::empty());
        let fs1 = seq![(0usize, (k + 1) as usize, 0usize, l)];
        assert(fs1.drop_last() =~= Seq::<(usize, usize, usize, Seq<Value>)>::empty());
        if s.len() > 0 {
            assert(s.subrange(0, 0) =~= Seq::<Value>::empty());
        }
    } else {
        let rest = c.subrange(k + 1, c.len() as int);
        let ins = c[k];
        assert(code[k] == ins);
        assert(c.subrange(k, c.len() as int) =~= seq![ins] + rest);
        lemma_line_run_append(seq![ins], rest, s, g, max);
        assert(seq![ins].drop_last() =~= Seq::<Instruction>::empty());
        assert(line_run(Seq::<Instruction>::empty(), s, g, max) == Some(Some((s, g))));
        assert(line_run(seq![ins], s, g, max) == line_step(ins, s, g, max));
        let fs1 = seq![(0usize, (k + 1) as usize, 0usize, l)];
        assert(fs1.last() == (0usize, (k + 1) as usize, 0usize, l));
        assert(fs1.drop_last().push((0usize, (k + 1) as usize, 0usize, l)) =~= fs1);
        match line_step(ins, s, g, max) {
            Some(Some((t, h))) => {
                lemma_main_line_run(fns, c, k + 1, l, t, h, (fuel - 1) as nat, max, maxf);
            },
            _ => {},
        }
    }
}

/// What an ordering comparison does to the stack.
pub open spec fn rel_effect(op: RelOp, s0: Seq<Value>, s1: Seq<Value>, r: VmResult<Flow>) -> bool {
    match rel_spec(op, top2(s0).0, top2(s0).1) {
        Some(b) => r is Ok && s1 == below2(s0).push(Value::Bool(b)),
        None => r is Err,
    }
}

impl Vm {
    fn binary_int(&mut self, ins: &Instruction) -> (r: VmResult<Flow>)
        requires
            *ins == Instruction::Sub || *ins == Instruction::Div || *ins == Instruction::Mod,
        ensures
            instr_effect(*ins, old(self).stack@, final(self).stack@, old(self).max_stack as nat, r),
            final(self).frames == old(self).frames,
            final(self).max_stack == old(self).max_stack,
            final(self).max_frames == old(self).max_frames,
            r matches Ok(f) ==> f is Continue,
    {
        let b = self.pop_int()?;
        let a = self.pop_int()?;
        let v = match ins {
            Instruction::Sub => a.wrapping_sub(b),
            Instruction::Div => {
                if b == 0 {
                    return Err(err(VmErrorKind::ZeroDivision, "integer division by zero".to_owned()));
                }
                int_div(a, b)
            },
            _ => {
                if b == 0 {
                    return Err(err(VmErrorKind::ZeroDivision, "integer modulo by zero".to_owned()));
                }
                int_rem(a, b)
            },
        };
        self.push(Value::Int(v))?;
        assert(self.stack@ =~= below2(old(self).stack@).push(Value::Int(v)));
        Ok(Flow::Continue)
    }

    fn compare(&mut self, op: RelOp) -> (r: VmResult<Flow>)
        ensures
            2 <= old(self).stack@.len() <= old(self).max_stack ==> rel_effect(op, old(self).stack@, final(self).stack@, r),
            final(self).frames == old(self).frames,
            final(self).max_stack == old(self).max_stack,
            final(self).max_frames == old(self).max_frames,
            r matches Ok(f) ==> f is Continue,
    {
        let b = self.pop()?;
        let a = self.pop()?;
        let v = rel_values(op, &a, &b)?;
        self.push(Value::Bool(v))?;
        assert(self.stack@ =~= below2(old(self).stack@).push(Value::Bool(v)));
        Ok(Flow::Continue)
    }

    /// Executes one instruction of the current frame, whose instruction
    /// pointer has already moved past it.
    pub fn exec_instr<IO: RuntimeIo>(&mut self, ins: &Instruction, module: &mut Module, io: &mut IO) -> (r: VmResult<Flow>)
        requires
            module_wf(*old(module)),
            instr_wf(*old(module), *ins),
            frames_ok(old(self).frames@, old(module).functions@.len()),
            old(self).frames@.len() > 0,
        ensures
            same_program(*final(module), *old(module)),
            frames_ok(final(self).frames@, final(module).functions@.len()),
            final(self).max_stack == old(self).max_stack,
            final(self).max_frames == old(self).max_frames,
            instr_effect(*ins, old(self).stack@, final(self).stack@, old(self).max_stack as nat, r),
            r matches Ok(Flow::Done(_)) ==> final(self).frames@.len() == 0,
            pure_instr(*ins) ==> final(self).frames == old(self).frames && (r is Ok ==> r matches Ok(Flow::Continue)),
            old(self).frames@.len() > 0 ==> match instr_step(*ins, old(self).frames@.last().ip, old(self).stack@,
                old(self).frames@.last().locals@, old(self).max_stack as nat) {
                Some(Some((ip1, s1, l1))) => r matches Ok(Flow::Continue)
                    && final(self).stack@ == s1
                    && final(self).frames@.len() == old(self).frames@.len()
                    && final(self).frames@.drop_last() == old(self).frames@.drop_last()
                    && final(self).frames@.last().ip == ip1
                    && final(self).frames@.last().locals@ == l1
                    && final(self).frames@.last().func_id == old(self).frames@.last().func_id
                    && final(self).frames@.last().ret_stack_size == old(self).frames@.last().ret_stack_size,
                Some(None) => r is Err,
                None => true,
            },
            *ins == Instruction::Return && old(self).frames@.len() == 1 ==> r == Ok::<Flow, VmError>(Flow::Done(
                if old(self).stack@.len() > old(self).frames@[0].ret_stack_size { Some(old(self).stack@.last()) } else { None }))
                && final(self).state == VmState::Finished,
            !(*ins matches Instruction::StoreGlobal(_)) ==> final(module).globals == old(module).globals,
            *ins matches Instruction::LoadGlobal(ix) ==> if (ix as int) < old(module).globals@.len()
                && old(module).globals@[ix as int] is Some && old(self).stack@.len() < old(self).max_stack {
                r matches Ok(Flow::Continue) && final(self).frames == old(self).frames
                    && final(self).stack@ == old(self).stack@.push(old(module).globals@[ix as int].unwrap())
            } else {
                r is Err
            },
            *ins matches Instruction::StoreGlobal(ix) ==> if old(self).stack@.len() > 0 && (ix as int) < old(module).globals@.len() {
                r matches Ok(Flow::Continue) && final(self).frames == old(self).frames
                    && final(self).stack@ == old(self).stack@.drop_last()
                    && final(module).globals@ == old(module).globals@.update(ix as int, Some(old(self).stack@.last()))
            } else {
                r is Err
            },
            *ins matches Instruction::Call(f, argc) ==> if old(self).frames@.len() < old(self).max_frames
                && (argc as int) <= old(self).stack@.len() {
                r matches Ok(Flow::Continue)
                    && frames_view(final(self).frames@) == frames_view(old(self).frames@).push((f as usize, 0usize,
                        (old(self).stack@.len() - argc) as usize,
                        call_locals(old(self).stack@.subrange(old(self).stack@.len() - argc, old(self).stack@.len() as int),
                            old(module).functions@[f as int].num_locals as nat)))
                    && final(self).stack@ == old(self).stack@.subrange(0, old(self).stack@.len() - argc)
            } else {
                r is Err
            },
            *ins == Instruction::Return && old(self).frames@.len() > 1 ==> match return_step(frames_view(old(self).frames@),
                old(self).stack@, old(module).globals@, old(self).max_stack as nat) {
                Some(Some(MachineStep::Next(fs1, s1, g1))) => r matches Ok(Flow::Continue)
                    && frames_view(final(self).frames@) == fs1 && final(self).stack@ == s1,
                Some(None) => r is Err,
                _ => true,
            },
    {
        let ghost nfun = module.functions@.len();
        match ins {
            Instruction::ConstI64(i) => {
                self.push(Value::Int(*i))?;
                Ok(Flow::Continue)
            },
            Instruction::ConstF64(t) => {
                self.push(Value::Float(t.clone()))?;
                Ok(Flow::Continue)
            },
            Instruction::ConstStr(i) => {
                let t = module.string_pool[*i as usize].clone();
                self.push(Value::Str(t))?;
                Ok(Flow::Continue)
            },
            Instruction::LoadConst(i) => {
                let v = clone_value(&module.consts[*i as usize]);
                self.push(v)?;
                Ok(Flow::Continue)
            },
            Instruction::True => {
                self.push(Value::Bool(true))?;
                Ok(Flow::Continue)
            },
            Instruction::False => {
                self.push(Value::Bool(false))?;
                Ok(Flow::Continue)
            },
            Instruction::PushNone => {
                self.push(Value::NoneVal)?;
                Ok(Flow::Continue)
            },
            Instruction::Pop => {
                self.pop()?;
                Ok(Flow::Continue)
            },
            Instruction::LoadLocal(ix) => {
                let v = self.get_local(*ix)?;
                self.push(v)?;
                Ok(Flow::Continue)
            },
            Instruction::StoreLocal(ix) => {
                let v = self.pop()?;
                self.set_local(*ix, v)?;
                assert forall|k: int| 0 <= k < self.frames@.len() implies (#[trigger] self.frames@[k]).func_id < nfun by {
                    if k < self.frames@.len() - 1 {
                        assert(self.frames@[k] == self.frames@.drop_last()[k]);
                    }
                }
                Ok(Flow::Continue)
            },
            Instruction::LoadGlobal(ix) => {
                let k = *ix as usize;
                if k < module.globals.len() {
                    match &module.globals[k] {
                        Some(v) => {
                            let v = clone_value(v);
                            self.push(v)?;
                            return Ok(Flow::Continue);
                        },
                        None => {},
                    }
                }
                Err(err(VmErrorKind::UndefinedGlobal(*ix), count_message("undefined global ", k, "")))
            },
            Instruction::StoreGlobal(ix) => {
                let v = self.pop()?;
                let k = *ix as usize;
                if k >= module.globals.len() {
                    return Err(err(VmErrorKind::UndefinedGlobal(*ix), count_message("invalid global index ", k, "")));
                }
                module.globals.set(k, Some(v));
                Ok(Flow::Continue)
            },
            Instruction::Add => {
                let b = self.pop()?;
                let a = self.pop()?;
                let v = add_values(a, b)?;
                self.push(v)?;
                assert(self.stack@ =~= below2(old(self).stack@).push(self.stack@.last()));
                assert(self.stack@.drop_last() =~= below2(old(self).stack@));
                Ok(Flow::Continue)
            },
            Instruction::Sub | Instruction::Div | Instruction::Mod => self.binary_int(ins),
            Instruction::Mul => {
                let b = self.pop()?;
                let a = self.pop()?;
                let v = mul_values(a, b)?;
                self.push(v)?;
                assert(self.stack@ =~= below2(old(self).stack@).push(self.stack@.last()));
                Ok(Flow::Continue)
            },
            Instruction::TrueDiv => {
                let _ = self.pop()?;
                let _ = self.pop()?;
                Err(err(VmErrorKind::TypeError("truediv"), "true division needs floating-point numbers".to_owned()))
            },
            Instruction::Neg => {
                let a = self.pop_int()?;
                self.push(Value::Int(int_neg(a)))?;
                Ok(Flow::Continue)
            },
            Instruction::Pos => {
                let a = self.pop_int()?;
                self.push(Value::Int(a))?;
                Ok(Flow::Continue)
            },
            Instruction::Eq | Instruction::Ne => {
                let b = self.pop()?;
                let a = self.pop()?;
                let e = eq_vals(&a, &b);
                let v = if matches!(ins, Instruction::Eq) { e } else { !e };
                self.push(Value::Bool(v))?;
                assert(self.stack@ =~= below2(old(self).stack@).push(Value::Bool(v)));
                Ok(Flow::Continue)
            },
            Instruction::Lt => self.compare(RelOp::Lt),
            Instruction::Le => self.compare(RelOp::Le),
            Instruction::Gt => self.compare(RelOp::Gt),
            Instruction::Ge => self.compare(RelOp::Ge),
            Instruction::Not => {
                let a = self.pop_bool()?;
                self.push(Value::Bool(!a))?;
                Ok(Flow::Continue)
            },
            Instruction::Jump(off) => {
                self.add_ip_rel(*off);
                proof { lemma_frames_same_funcs(old(self).frames@, self.frames@, nfun); }
                Ok(Flow::Continue)
            },
            Instruction::JumpIfFalse(off) => {
                let c = self.pop_bool()?;
                if !c {
                    self.add_ip_rel(*off);
                    proof { lemma_frames_same_funcs(old(self).frames@, self.frames@, nfun); }
                }
                Ok(Flow::Continue)
            },
            Instruction::JumpIfTrue(off) => {
                let c = self.pop_bool()?;
                if c {
                    self.add_ip_rel(*off);
                    proof { lemma_frames_same_funcs(old(self).frames@, self.frames@, nfun); }
                }
                Ok(Flow::Continue)
            },
            Instruction::Call(fid, argc) => {
                self.enter_func(module, *fid as usize, *argc as usize, Vec::new())?;
                proof { lemma_frames_push(old(self).frames@, self.frames@.last(), nfun); }
                assert(self.frames@ =~= old(self).frames@.push(self.frames@.last()));
                assert(frames_view(self.frames@) =~= frames_view(old(self).frames@).push(frame_view(self.frames@.last())));
                Ok(Flow::Continue)
            },
            Instruction::CallBuiltin(bid, argc) => {
                let res = self.call_builtin(*bid, *argc as usize, io);
                proof { lemma_frames_same_funcs(old(self).frames@, self.frames@, nfun); }
                let flow = res?;
                Ok(flow)
            },
            Instruction::Return => {
                let ret = self.leave_frame();
                assert forall|k: int| 0 <= k < self.frames@.len() implies (#[trigger] self.frames@[k]).func_id < nfun by {
                    assert(self.frames@[k] == old(self).frames@[k]);
                }
                assert(frames_view(self.frames@) =~= frames_view(old(self).frames@).drop_last());
                if self.frames.len() == 0 {
                    self.state = VmState::Finished;
                    return Ok(Flow::Done(ret));
                }
                match ret {
                    Some(v) => {
                        self.push(v)?;
                    },
                    None => {},
                }
                Ok(Flow::Continue)
            },
            Instruction::CallValue(argc) => {
                self.call_value(*argc as usize, module)?;
                Ok(Flow::Continue)
            },
            Instruction::CallMethod(sym, argc) => {
                self.call_method(*sym, *argc as usize, module)?;
                Ok(Flow::Continue)
            },
            Instruction::LoadAttr(sym) => {
                let name = module.symbols[*sym as usize].clone();
                self.load_attr(name.as_str())?;
                Ok(Flow::Continue)
            },
            Instruction::StoreAttr(sym) => {
                let name = module.symbols[*sym as usize].clone();
                self.store_attr(name.as_str())?;
                Ok(Flow::Continue)
            },
            Instruction::BuildList(n) => {
                self.build_list(*n as usize)?;
                Ok(Flow::Continue)
            },
            Instruction::BuildDict(n) => {
                self.build_dict(*n as usize)?;
                Ok(Flow::Continue)
            },
            Instruction::LoadIndex => {
                self.load_index()?;
                Ok(Flow::Continue)
            },
            Instruction::StoreIndex => {
                self.store_index()?;
                Ok(Flow::Continue)
            },
            Instruction::MakeClosure(fid, n) => {
                self.make_closure(*fid, *n as usize)?;
                Ok(Flow::Continue)
            },
        }
    }
}

proof fn lemma_frames_prefix(a: Seq<Frame>, nfun: nat)
    requires
        frames_ok(a, nfun),
        a.len() > 0,
    ensures
        frames_ok(a.drop_last(), nfun),
{
    assert forall|k: int| 0 <= k < a.drop_last().len() implies (#[trigger] a.drop_last()[k]).func_id < nfun by {
        assert(a.drop_last()[k] == a[k]);
    }
}

/// A module with the same program as a well-formed one is well formed.
pub proof fn lemma_same_program_wf(a: Module, b: Module)
    requires
        same_program(a, b),
        module_wf(b),
    ensures
        module_wf(a),
{
    assert forall|f: int, k: int| 0 <= f < a.functions@.len() && 0 <= k < a.functions@[f].code@.len()
        implies #[trigger] instr_wf(a, a.functions@[f].code@[k]) by {
        assert(instr_wf(b, b.functions@[f].code@[k]));
    }
}

proof fn lemma_frames_same_funcs(a: Seq<Frame>, b: Seq<Frame>, nfun: nat)
    requires
        frames_ok(a, nfun),
        a.len() == b.len(),
        a.len() > 0 ==> b.drop_last() == a.drop_last() && b.last().func_id == a.last().func_id,
    ensures
        frames_ok(b, nfun),
{
    assert forall|k: int| 0 <= k < b.len() implies (#[trigger] b[k]).func_id < nfun by {
        if k < b.len() - 1 {
            assert(b[k] == b.drop_last()[k]);
            assert(a[k] == a.drop_last()[k]);
        }
    }
}

/// Tests `instr_wf`.
fn check_instr(m: &Module, ins: &Instruction) -> (r: bool)
    ensures
        r == instr_wf(*m, *ins),
{
    match ins {
        Instruction::ConstStr(i) => (*i as usize) < m.string_pool.len(),
        Instruction::LoadConst(i) => (*i as usize) < m.consts.len(),
        Instruction::Call(f, _) => (*f as usize) < m.functions.len(),
        Instruction::CallMethod(s, _) => (*s as usize) < m.symbols.len(),
        Instruction::LoadAttr(s) => (*s as usize) < m.symbols.len(),
        Instruction::StoreAttr(s) => (*s as usize) < m.symbols.len(),
        Instruction::MakeClosure(f, _) => (*f as usize) < m.functions.len(),
        _ => true,
    }
}

/// Tests `module_wf`: a module read from outside must pass before it runs.
pub fn check_module(m: &Module) -> (r: bool)
    ensures
        r == module_wf(*m),
{
    let mut f: usize = 0;
    while f < m.functions.len()
        invariant
            f <= m.functions@.len(),
            forall|g: int, k: int| 0 <= g < f && 0 <= k < m.functions@[g].code@.len()
                ==> #[trigger] instr_wf(*m, m.functions@[g].code@[k]),
        decreases m.functions@.len() - f,
    {
        let code = &m.functions[f].code;
        let mut k: usize = 0;
        while k < code.len()
            invariant
                k <= code@.len(),
                f < m.functions@.len(),
                *code == m.functions@[f as int].code,
                forall|g: int, j: int| 0 <= g < f && 0 <= j < m.functions@[g].code@.len()
                    ==> #[trigger] instr_wf(*m, m.functions@[g].code@[j]),
                forall|j: int| 0 <= j < k ==> #[trigger] instr_wf(*m, code@[j]),
            decreases code@.len() - k,
        {
            if !check_instr(m, &code[k]) {
                assert(!instr_wf(*m, m.functions@[f as int].code@[k as int]));
                return false;
            }
            k = k + 1;
        }
        f = f + 1;
    }
    let mut c: usize = 0;
    while c < m.classes.len()
        invariant
            c <= m.classes@.len(),
            forall|g: int, k: int| 0 <= g < m.functions@.len() && 0 <= k < m.functions@[g].code@.len()
                ==> #[trigger] instr_wf(*m, m.functions@[g].code@[k]),
            forall|d: int, j: int| 0 <= d < c && 0 <= j < m.classes@[d].methods@.len()
                ==> (#[trigger] m.classes@[d].methods@[j]).1 < m.functions@.len(),
        decreases m.classes@.len() - c,
    {
        let methods = &m.classes[c].methods;
        let mut j: usize = 0;
        while j < methods.len()
            invariant
                j <= methods@.len(),
                c < m.classes@.len(),
                *methods == m.classes@[c as int].methods,
                forall|d: int, i: int| 0 <= d < c && 0 <= i < m.classes@[d].methods@.len()
                    ==> (#[trigger] m.classes@[d].methods@[i]).1 < m.functions@.len(),
                forall|i: int| 0 <= i < j ==> (#[trigger] methods@[i]).1 < m.functions@.len(),
            decreases methods@.len() - j,
        {
            if (methods[j].1 as usize) >= m.functions.len() {
                assert(!((m.classes@[c as int].methods@[j as int]).1 < m.functions@.len()));
                return false;
            }
            j = j + 1;
        }
        c = c + 1;
    }
    true
}

/// A machine that has not started: no call in progress, an empty stack and
/// room for at least one frame, with a module that has a main function.
pub open spec fn fresh_start(vm: Vm, m: Module) -> bool {
    &&& vm.frames@.len() == 0
    &&& vm.stack@.len() == 0
    &&& vm.max_frames > 0
    &&& m.functions@.len() > 0
    &&& m.functions@[0].code@.len() < 0xffff_ffff_ffff_fffe
}

impl Vm {
    /// Runs the module from where the machine stands: at the start of
    /// function 0 when no call is in progress, or where it paused for input.
    /// Stops when the outermost function returns (Finished, with its return
    /// value), when input is awaited (WaitingForInput), or on an error. It
    /// executes at most 2^64 - 1 instructions per call, after which it
    /// returns with the machine Running, ready to go on.
    pub fn run_with_io<IO: RuntimeIo>(&mut self, module: &mut Module, io: &mut IO) -> (r: VmResult<Option<Value>>)
        requires
            module_wf(*old(module)),
            frames_ok(old(self).frames@, old(module).functions@.len()),
        ensures
            same_program(*final(module), *old(module)),
            frames_ok(final(self).frames@, final(module).functions@.len()),
            r is Ok && final(self).state == VmState::Finished && old(module).functions@.len() > 0
                ==> final(self).frames@.len() == 0,
            r is Ok && old(module).functions@.len() > 0 ==> final(self).state == VmState::Finished
                || final(self).state == VmState::WaitingForInput || final(self).state == VmState::Running,
            old(module).functions@.len() == 0 ==> r matches Ok(None),
            fresh_start(*old(self), *old(module)) ==> match module_run(*old(self), *old(module)) {
                Some(Some((v, g))) => r == Ok::<Option<Value>, VmError>(v) && final(self).state == VmState::Finished
                    && final(module).globals@ == g,
                Some(None) => r is Err,
                None => true,
            },
    {
        let ghost fns0 = module.functions@;
        let ghost maxf = self.max_frames as nat;
        let ghost full = fresh_start(*self, *module) && module_run(*self, *module) is Some;
        let ghost max = self.max_stack as nat;
        if module.functions.len() == 0 {
            return Ok(None);
        }
        if self.frames.len() == 0 {
            self.enter_func(module, 0, 0, Vec::new())?;
            proof { lemma_frames_push(old(self).frames@, self.frames@.last(), module.functions@.len()); }
            assert(self.frames@ =~= old(self).frames@.push(self.frames@.last()));
        }
        assert(full ==> frames_view(self.frames@) =~= seq![(0usize, 0usize, 0usize,
            Seq::new(module.functions@[0].num_locals as nat, |i: int| Value::NoneVal))]);
        assert(full ==> self.stack@ =~= Seq::<Value>::empty());
        let mut fuel: u64 = 0xffff_ffff_ffff_ffff;
        while fuel > 0
            invariant
                module_wf(*module),
                same_program(*module, *old(module)),
                frames_ok(self.frames@, module.functions@.len()),
                module.functions@.len() > 0,
                full ==> {
                    &&& module.functions@ == fns0
                    &&& self.max_stack as nat == max
                    &&& self.max_frames as nat == maxf
                    &&& module_run(*old(self), *old(module))
                        == machine_steps(fns0, frames_view(self.frames@), self.stack@, module.globals@, fuel as nat, max, maxf)
                },
                full == (fresh_start(*old(self), *old(module)) && module_run(*old(self), *old(module)) is Some),
                full ==> fns0 == old(module).functions@ && max == old(self).max_stack as nat
                    && maxf == old(self).max_frames as nat,
            decreases fuel,
        {
            proof {
                lemma_machine_steps_unfold(fns0, frames_view(self.frames@), self.stack@, module.globals@, fuel as nat, max, maxf);
            }
            fuel = fuel - 1;
            let n = self.frames.len();
            if n == 0 {
                self.state = VmState::Finished;
                return Ok(None);
            }
            let fid = self.frames[n - 1].func_id;
            let ip = self.frames[n - 1].ip;
            assert(self.frames@[n - 1].func_id < module.functions@.len());
            let code_len = module.functions[fid].code.len();
            let ghost fs0 = frames_view(self.frames@);
            assert(fs0.last() == frame_view(self.frames@[n - 1]));
            if ip >= code_len {
                let ghost before = self.frames@;
                let ret = self.leave_frame();
                assert(frames_view(self.frames@) =~= fs0.drop_last());
                proof { lemma_frames_prefix(before, module.functions@.len()); }
                if self.frames.len() == 0 {
                    self.state = VmState::Finished;
                    return Ok(ret);
                }
                match ret {
                    Some(v) => {
                        self.push(v)?;
                    },
                    None => {},
                }
            } else {
                let ins = clone_instr(&module.functions[fid].code[ip]);
                assert(instr_wf(*module, module.functions@[fid as int].code@[ip as int]));
                let ghost before = self.frames@;
                let ghost s0 = self.stack@;
                let ghost l0 = self.frames@[n - 1].locals@;
                self.set_ip(ip + 1);
                proof { lemma_frames_same_funcs(before, self.frames@, module.functions@.len()); }
                let ghost fs1 = frames_view(self.frames@);
                proof { lemma_frames_view_update(before, self.frames@); }
                assert(fs1 == fs0.drop_last().push((fid, (ip + 1) as usize, fs0.last().2, fs0.last().3)));
                let ghost frames1 = self.frames@;
                let ghost m0 = *module;
                let step = self.exec_instr(&ins, module, io);
                proof {
                    match instr_step(ins, (ip + 1) as usize, s0, l0, max) {
                        Some(Some((ip1, s1, l1))) => {
                            if full {
                                lemma_frames_view_update(frames1, self.frames@);
                                assert(frames_view(self.frames@) == fs1.drop_last().push((fid, ip1, fs0.last().2, l1)));
                            }
                        },
                        _ => {},
                    }
                    lemma_same_program_wf(*module, m0);
                }
                let flow = match step {
                    Ok(f) => f,
                    Err(e) => {
                        return Err(e);
                    },
                };
                match flow {
                    Flow::Continue => {},
                    Flow::WaitingForInput => {
                        self.state = VmState::WaitingForInput;
                        return Ok(None);
                    },
                    Flow::Done(ret) => {
                        self.state = VmState::Finished;
                        return Ok(ret);
                    },
                }
            }
        }
        self.state = VmState::Running;
        Ok(None)
    }

    /// Runs the module with buffered I/O (no input is available); what it
    /// prints is added to `output`.
    pub fn run(&mut self, module: &mut Module) -> (r: VmResult<Option<Value>>)
        requires
            module_wf(*old(module)),
            frames_ok(old(self).frames@, old(module).functions@.len()),
        ensures
            same_program(*final(module), *old(module)),
            frames_ok(final(self).frames@, final(module).functions@.len()),
            old(module).functions@.len() == 0 ==> r matches Ok(None),
            fresh_start(*old(self), *old(module)) ==> match module_run(*old(self), *old(module)) {
                Some(Some((v, g))) => r == Ok::<Option<Value>, VmError>(v) && final(self).state == VmState::Finished
                    && final(module).globals@ == g,
                Some(None) => r is Err,
                None => true,
            },
    {
        let mut io = BufferIo::new();
        let r = self.run_with_io(module, &mut io);
        let out = io.take_output();
        self.output.append(out.as_str());
        r
    }
}

/// A call and its return: when a `Call` of `argc` arguments takes the
/// machine from frames `fs` and stack `s` to `fs2` and `s2`, and the callee
/// later returns from a state that keeps the frames below it and its base,
/// with what it pushed (`t`) above `s2`, the machine is back in the
/// caller's frames `fs` (already past the call) with the stack `s2` (the
/// caller's stack without the arguments) plus the callee's top value.
pub proof fn law_call_then_return(fns: Seq<FunctionCode>, fs: Seq<(usize, usize, usize, Seq<Value>)>, s: Seq<Value>,
    g: Seq<Option<Value>>, f: u16, argc: u8, fs2: Seq<(usize, usize, usize, Seq<Value>)>, s2: Seq<Value>,
    fs3: Seq<(usize, usize, usize, Seq<Value>)>, t: Seq<Value>, g3: Seq<Option<Value>>, max: nat, maxf: nat)
    requires
        fs.len() > 0,
        s.len() <= usize::MAX,
        instr_machine_step(fns, Instruction::Call(f, argc), fs, s, g, max, maxf)
            == Some(Some(MachineStep::Next(fs2, s2, g))),
        fs3.len() == fs2.len(),
        fs3.drop_last() == fs2.drop_last(),
        fs3.last().2 == fs2.last().2,
        t.len() > 0,
        s2.len() < max,
    ensures
        fs2.drop_last() == fs,
        s2 == s.subrange(0, s.len() - argc),
        return_step(fs3, s2 + t, g3, max) == Some(Some(MachineStep::Next(fs, s2.push(t.last()), g3))),
{
    assert(fs2.drop_last() =~= fs);
    assert(fs2.last().2 == s2.len());
    let s3 = s2 + t;
    assert(s3.subrange(0, s2.len() as int) =~= s2);
}

/// A global read gives back what was last written to it: `StoreGlobal(ix)`
/// of the top value `v`, then `LoadGlobal(ix)`, leaves `v` on the stack in
/// place of the stored one, with the slot holding `v`.
pub proof fn law_load_after_store_global(fns: Seq<FunctionCode>, fs: Seq<(usize, usize, usize, Seq<Value>)>,
    s: Seq<Value>, v: Value, g: Seq<Option<Value>>, ix: u16, max: nat, maxf: nat)
    requires
        fs.len() > 0,
        (ix as int) < g.len(),
        s.len() < max,
    ensures
        instr_machine_step(fns, Instruction::StoreGlobal(ix), fs, s.push(v), g, max, maxf)
            == Some(Some(MachineStep::Next(fs, s, g.update(ix as int, Some(v))))),
        instr_machine_step(fns, Instruction::LoadGlobal(ix), fs, s, g.update(ix as int, Some(v)), max, maxf)
            == Some(Some(MachineStep::Next(fs, s.push(v), g.update(ix as int, Some(v))))),
{
    assert(s.push(v).drop_last() =~= s);
}

/// What `push` puts on the stack, `pop` gives back, leaving the stack as
/// it was before the push.
pub proof fn law_pop_undoes_push(s: Seq<Value>, v: Value)
    ensures
        s.push(v).len() > 0,
        s.push(v).last() == v,
        s.push(v).drop_last() == s,
{
    assert(s.push(v).drop_last() =~= s);
}

/// The orderings are converses of each other: `a < b` exactly when
/// `b > a`, `a <= b` exactly when `b >= a`; and `a < b` is the negation
/// of `a >= b` on comparable values.
pub proof fn law_ordering_converse(a: Value, b: Value)
    ensures
        rel_spec(RelOp::Lt, a, b) == rel_spec(RelOp::Gt, b, a),
        rel_spec(RelOp::Le, a, b) == rel_spec(RelOp::Ge, b, a),
        rel_spec(RelOp::Lt, a, b) is Some <==> rel_spec(RelOp::Ge, a, b) is Some,
        rel_spec(RelOp::Lt, a, b) matches Some(x) ==> rel_spec(RelOp::Ge, a, b) == Some(!x),
        rel_spec(RelOp::Gt, a, b) matches Some(x) ==> rel_spec(RelOp::Le, a, b) == Some(!x),
{
}

/// Integer division and remainder fit together: `(a / b) * b + a % b == a`,
/// the remainder is smaller than the divisor and has the sign of the
/// dividend (the one overflowing case, `i64::MIN / -1`, left out).
#[verifier::spinoff_prover]
pub proof fn law_div_rem(a: i64, b: i64)
    requires
        b != 0,
        !(a == i64::MIN && b == -1),
    ensures
        div_spec(a, b) * b + rem_spec(a, b) == a,
        -(b as int) < rem_spec(a, b) < b || (b as int) < rem_spec(a, b) < -(b as int),
        a >= 0 ==> rem_spec(a, b) >= 0,
        a <= 0 ==> rem_spec(a, b) <= 0,
{
    let x = a as int;
    let d = b as int;
    assert(x * -1 == -x && d * -1 == -d);
    if x == 0 {
    } else if x > 0 && d > 0 {
        vstd::arithmetic::div_mod::lemma_fundamental_div_mod(x, d);
        vstd::arithmetic::div_mod::lemma_mod_pos_bound(x, d);
        vstd::arithmetic::div_mod::lemma_div_pos_is_pos(x, d);
        vstd::arithmetic::div_mod::lemma_div_is_ordered_by_denominator(x, 1, d);
        assert(x / d <= x);
        assert(div_spec(a, b) == x / d);
        assert(rem_spec(a, b) == x % d);
        assert((x / d) * d + x % d == x) by (nonlinear_arith)
            requires x == d * (x / d) + x % d;
    } else if x < 0 && d < 0 {
        vstd::arithmetic::div_mod::lemma_fundamental_div_mod(-x, -d);
        vstd::arithmetic::div_mod::lemma_mod_pos_bound(-x, -d);
        vstd::arithmetic::div_mod::lemma_div_pos_is_pos(-x, -d);
        vstd::arithmetic::div_mod::lemma_div_is_ordered_by_denominator(-x, 1, -d);
        assert((-x) / (-d) <= -x);
        if d < -1 {
            vstd::arithmetic::div_mod::lemma_div_is_ordered_by_denominator(-x, 2, -d);
            assert((-x) / (-d) <= (-x) / 2);
        }
        assert((-x) / (-d) <= i64::MAX);
        assert(div_spec(a, b) == (-x) / (-d));
        assert(rem_spec(a, b) == -((-x) % (-d)));
        assert((-x) / (-d) * d + (-((-x) % (-d))) == x) by (nonlinear_arith)
            requires -x == (-d) * ((-x) / (-d)) + (-x) % (-d);
    } else if x < 0 {
        vstd::arithmetic::div_mod::lemma_fundamental_div_mod(-x, d);
        vstd::arithmetic::div_mod::lemma_mod_pos_bound(-x, d);
        vstd::arithmetic::div_mod::lemma_div_pos_is_pos(-x, d);
        vstd::arithmetic::div_mod::lemma_div_is_ordered_by_denominator(-x, 1, d);
        assert((-x) / d <= -x);
        assert(div_spec(a, b) == ((-x) / d) * -1);
        assert(rem_spec(a, b) == -((-x) % d));
        assert(((-x) / d) * -1 * d + (-((-x) % d)) == x) by (nonlinear_arith)
            requires -x == d * ((-x) / d) + (-x) % d;
    } else {
        vstd::arithmetic::div_mod::lemma_fundamental_div_mod(x, -d);
        vstd::arithmetic::div_mod::lemma_mod_pos_bound(x, -d);
        vstd::arithmetic::div_mod::lemma_div_pos_is_pos(x, -d);
        vstd::arithmetic::div_mod::lemma_div_is_ordered_by_denominator(x, 1, -d);
        assert(x / (-d) <= x);
        assert(div_spec(a, b) == (x / (-d)) * -1);
        assert(rem_spec(a, b) == x % (-d));
        assert((x / (-d)) * -1 * d + x % (-d) == x) by (nonlinear_arith)
            requires x == (-d) * (x / (-d)) + x % (-d);
    }
}

/// A relative jump and the jump back by the opposite offset return to the
/// instruction they started from.
pub proof fn law_jump_back_returns(ip: usize, off: i32)
    requires
        off != i32::MIN,
    ensures
        off >= 0 ==> (ip.wrapping_add(off as usize)).wrapping_sub(off as usize) == ip,
        off < 0 ==> (ip.wrapping_sub((-(off as int)) as usize)).wrapping_add((-(off as int)) as usize) == ip,
{
}

} // verus!
