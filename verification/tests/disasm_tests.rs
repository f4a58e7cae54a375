use pyhyeon::vm::bytecode::{FunctionCode, Instruction, Module, Value};
use pyhyeon::vm::disasm::{disassemble_function_to_string, disassemble_instruction, disassemble_module_to_string, is_listable};

fn tiny_module() -> Module {
    let mut m = Module::new();
    m.symbols.push("__main__".to_string());
    m.globals.push(None);
    m.functions.push(FunctionCode {
        name_sym: 0,
        arity: 0,
        num_locals: 0,
        code: vec![Instruction::ConstI64(42), Instruction::Return],
    });
    m
}

#[test]
fn module_listing_is_exact() {
    let m = tiny_module();
    assert!(is_listable(&m));
    let text = disassemble_module_to_string(&m);
    let expected = "=== Module Disassembly ===\n\nSymbols (1):\n  0: \"__main__\"\n\nConstants (0):\n\nClasses (0):\n\nFunctions (1):\nFunction #0 - __main__ (arity=0, locals=0)\n  Instructions:\n       0: ConstI64 42\n       1: Return\n\n";
    assert_eq!(text, expected);
}

#[test]
fn instruction_listing_names_symbols() {
    let mut m = tiny_module();
    m.symbols.push("x".to_string());
    m.globals.push(None);
    assert_eq!(disassemble_instruction(&m, &Instruction::LoadGlobal(1)), "LoadGlobal 1 (\"x\")");
    assert_eq!(disassemble_instruction(&m, &Instruction::Call(0, 2)), "Call 0 (func #0 \"__main__\", argc=2)");
    assert_eq!(disassemble_instruction(&m, &Instruction::Jump(-3)), "Jump -3");
    assert_eq!(disassemble_instruction(&m, &Instruction::BuildList(4)), "BuildList (count=4)");
    assert_eq!(disassemble_instruction(&m, &Instruction::PushNone), "None");
}

#[test]
fn function_listing_pads_indices() {
    let m = tiny_module();
    let f = FunctionCode { name_sym: 0, arity: 1, num_locals: 2, code: vec![Instruction::Pop; 11] };
    let text = disassemble_function_to_string(&m, 3, &f);
    assert!(text.starts_with("Function #3 - __main__ (arity=1, locals=2)\n  Instructions:\n       0: Pop\n"));
    assert!(text.contains("      10: Pop\n"));
}

#[test]
fn constants_are_listed() {
    let mut m = tiny_module();
    m.consts.push(Value::Class(2));
    let text = disassemble_module_to_string(&m);
    assert!(text.contains("Constants (1):\n  0: Class(2)\n"));
}

#[test]
fn out_of_range_global_is_not_listable() {
    let mut m = tiny_module();
    m.functions[0].code.push(Instruction::StoreGlobal(9));
    assert!(!is_listable(&m));
}

#[test]
fn compiled_program_is_listable() {
    let program = pyhyeon::parse_source("x = 1\nprint(x)\n").ok().unwrap();
    let m = pyhyeon::compile_to_module(&program);
    assert!(is_listable(&m));
    let text = disassemble_module_to_string(&m);
    assert!(text.contains("__main__"));
    assert!(text.contains("Return"));
}
