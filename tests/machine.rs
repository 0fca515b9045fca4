use lox_vm::chunk::{emit_byte, emit_bytes, instruction_width, Chunk, OpCode};
use lox_vm::globals::Globals;
use lox_vm::scanner::{keyword_type, scan, scan_text_and_make_tokens, TokenType};
use lox_vm::value::{get_value_str, get_value_str_with_quotes, is_falsy_value, Value};
use lox_vm::vm::{interpret, run, Action, ArithOp, RuntimeError, VirtualMachine};

fn chars(s: &str) -> Vec<char> {
    s.chars().collect()
}

fn start(src: &str) -> VirtualMachine {
    let tokens = scan(&chars(src)).expect("scans");
    let numbers = tokens
        .iter()
        .map(|t| {
            if t.token_type == TokenType::Number {
                t.data.iter().collect::<String>().parse::<f64>().unwrap().to_bits()
            } else {
                0
            }
        })
        .collect();
    interpret(tokens, numbers).expect("compiles").0
}

fn finish(vm: &mut VirtualMachine) -> Action {
    loop {
        match run(vm) {
            Action::Arithmetic(op, l, r) => {
                let (a, b) = (f64::from_bits(l), f64::from_bits(r));
                let x = match op {
                    ArithOp::Add => a + b,
                    ArithOp::Subtract => a - b,
                    ArithOp::Multiply => a * b,
                    ArithOp::Divide => a / b,
                };
                vm.push_number(x.to_bits());
            }
            other => return other,
        }
    }
}

fn numbers_printed(vm: &VirtualMachine) -> Vec<f64> {
    vm.printed
        .iter()
        .map(|v| match v {
            Value::Number(b) => f64::from_bits(*b),
            _ => f64::NAN,
        })
        .collect()
}

fn machine_for(code: &[u8], constants: Vec<Value>) -> VirtualMachine {
    let mut chunk = Chunk::new();
    for b in code {
        emit_byte(&mut chunk, *b, 1);
    }
    chunk.constants = constants;
    VirtualMachine::new(chunk)
}

#[test]
fn grouping_and_precedence() {
    let mut vm = start("print (1 + 2) * 3; print 1 + 2 * 3; print -1 + 2; print 8 / 2 / 2; print 1 - 2 - 3;");
    assert_eq!(finish(&mut vm), Action::Halt);
    assert_eq!(numbers_printed(&vm), vec![9.0, 7.0, 1.0, 2.0, -4.0]);
}

#[test]
fn var_without_value_is_null() {
    let mut vm = start("var a; print a;");
    assert_eq!(finish(&mut vm), Action::Halt);
    assert!(matches!(vm.printed[0], Value::Null));
}

#[test]
fn blocks_and_redefinition() {
    let mut vm = start("var a = 1; { var a = 2; print a; } print a; a = \"s\"; print a;");
    assert_eq!(finish(&mut vm), Action::Halt);
    assert_eq!(vm.printed.len(), 3);
    assert!(matches!(vm.printed[0], Value::Number(b) if f64::from_bits(b) == 2.0));
    assert!(matches!(vm.printed[1], Value::Number(b) if f64::from_bits(b) == 2.0));
    assert!(matches!(&vm.printed[2], Value::Str(s) if *s == chars("s")));
}

#[test]
fn rendering_values() {
    let none = Vec::new();
    assert_eq!(get_value_str(&Value::Bool(true), &none), chars("true"));
    assert_eq!(get_value_str(&Value::Bool(false), &none), chars("false"));
    assert_eq!(get_value_str(&Value::Null, &none), chars("null"));
    assert_eq!(get_value_str(&Value::Str(chars("hi")), &none), chars("hi"));
    assert_eq!(get_value_str(&Value::Number(2.5f64.to_bits()), &chars("2.5")), chars("2.5"));
    assert_eq!(get_value_str_with_quotes(&Value::Str(chars("hi")), &none), chars("\"hi\""));
    assert_eq!(get_value_str_with_quotes(&Value::Null, &none), chars("null"));
}

#[test]
fn falsy_values() {
    assert!(is_falsy_value(&Value::Null));
    assert!(is_falsy_value(&Value::Bool(false)));
    assert!(!is_falsy_value(&Value::Bool(true)));
    assert!(!is_falsy_value(&Value::Number(0)));
    assert!(!is_falsy_value(&Value::Str(Vec::new())));
}

#[test]
fn return_pops_and_halts() {
    let mut vm = machine_for(
        &[OpCode::True.byte(), OpCode::Return.byte(), OpCode::Null.byte()],
        Vec::new(),
    );
    assert_eq!(run(&mut vm), Action::Halt);
    assert!(matches!(vm.last_popped, Some(Value::Bool(true))));
    assert!(vm.stack.is_empty());
    assert_eq!(vm.ip, 2);
}

#[test]
fn malformed_and_unknown_code() {
    let mut vm = machine_for(&[OpCode::Constant.byte()], Vec::new());
    assert_eq!(run(&mut vm), Action::Fault(RuntimeError::MalformedCode));
    assert_eq!(vm.ip, 0);
    let mut vm = machine_for(&[OpCode::Constant.byte(), 0], Vec::new());
    assert_eq!(run(&mut vm), Action::Fault(RuntimeError::MalformedCode));
    let mut vm = machine_for(&[OpCode::Null.byte(), OpCode::DefineGlobal.byte(), 0], vec![Value::Null]);
    assert_eq!(run(&mut vm), Action::Fault(RuntimeError::MalformedCode));
    let mut vm = machine_for(&[200], Vec::new());
    assert_eq!(run(&mut vm), Action::Fault(RuntimeError::UnknownOpcode));
    let mut vm = machine_for(&[OpCode::Pop.byte()], Vec::new());
    assert_eq!(run(&mut vm), Action::Fault(RuntimeError::StackUnderflow));
    let mut vm = machine_for(&[OpCode::True.byte(), OpCode::Add.byte()], Vec::new());
    assert_eq!(run(&mut vm), Action::Fault(RuntimeError::StackUnderflow));
    let mut vm = machine_for(&[OpCode::Null.byte(), OpCode::Not.byte()], Vec::new());
    assert_eq!(run(&mut vm), Action::Fault(RuntimeError::TypeMismatch));
}

#[test]
fn jump_skips_when_falsy_only() {
    let code = [
        OpCode::Null.byte(),
        OpCode::JumpIfFalse.byte(),
        0,
        1,
        OpCode::True.byte(),
        OpCode::False.byte(),
    ];
    let mut vm = machine_for(&code, Vec::new());
    assert_eq!(run(&mut vm), Action::Halt);
    assert_eq!(vm.stack.len(), 1);
    assert!(matches!(vm.stack[0], Value::Bool(false)));
}

#[test]
fn globals_table() {
    let mut g = Globals::new();
    assert!(g.get(&chars("x")).is_none());
    g.insert(chars("x"), Value::Bool(true));
    g.insert(chars("y"), Value::Null);
    g.insert(chars("x"), Value::Bool(false));
    assert_eq!(g.entries.len(), 2);
    assert!(matches!(g.get(&chars("x")), Some(Value::Bool(false))));
    assert_eq!(g.find(&chars("y")), Some(1));
}

#[test]
fn widths_of_instructions() {
    assert_eq!(instruction_width(OpCode::Constant.byte()), 2);
    assert_eq!(instruction_width(OpCode::GetGlobal.byte()), 2);
    assert_eq!(instruction_width(OpCode::SetGlobal.byte()), 2);
    assert_eq!(instruction_width(OpCode::DefineGlobal.byte()), 2);
    assert_eq!(instruction_width(OpCode::JumpIfFalse.byte()), 3);
    assert_eq!(instruction_width(OpCode::Add.byte()), 1);
    assert_eq!(instruction_width(250), 1);
    for b in 0u8..20 {
        assert_eq!(OpCode::decode(b).unwrap().byte(), b);
    }
    assert_eq!(OpCode::decode(20), None);
}

#[test]
fn emit_keeps_lines_beside_code() {
    let mut chunk = Chunk::new();
    assert_eq!(emit_byte(&mut chunk, OpCode::Null.byte(), 3), 0);
    assert_eq!(emit_bytes(&mut chunk, OpCode::GetGlobal.byte(), 0, 4), 2);
    assert_eq!(chunk.code, vec![OpCode::Null.byte(), OpCode::GetGlobal.byte(), 0]);
    assert_eq!(chunk.lines, vec![3, 4, 4]);
}

#[test]
fn single_tokens_and_keywords() {
    let src = chars("// only a comment");
    let mut index = 0usize;
    let mut lines = 1usize;
    let t = scan_text_and_make_tokens(&src, &mut index, &mut lines);
    assert_eq!(t.token_type, TokenType::Comment);
    assert_eq!(index, src.len());
    let src = chars("1.2.3x");
    let mut index = 0usize;
    let t = scan_text_and_make_tokens(&src, &mut index, &mut lines);
    assert_eq!(t.token_type, TokenType::Number);
    assert_eq!(t.data, chars("1.2.3"));
    assert_eq!(keyword_type(&chars("class")), TokenType::Class);
    assert_eq!(keyword_type(&chars("classy")), TokenType::Identifier);
    assert_eq!(keyword_type(&chars("fun")), TokenType::Fun);
    assert!(scan(&chars("")).unwrap().is_empty());
}
