use lox_vm::chunk::{
    add_constant, add_constant_dont_emit, disassemble_chunk, emit_byte, instruction_width, Chunk,
    CompileError, OpCode,
};
use lox_vm::compiler::{
    advance_true_if_match, compile, get_rule, next_prec, patch_jump, Compiled, Diagnostic, Handler,
    Precedence,
};
use lox_vm::input::full_lines;
use lox_vm::scanner::{
    advance_to_next_token_index, check_next_token, make_token, scan, Token, TokenType,
};
use lox_vm::value::{
    add_strings, numbers_equal, number_less, values_equal, values_less, OrderError, Value,
};
use lox_vm::vm::{interpret, run, Action, ArithOp, InterpretResult, RuntimeError, VirtualMachine};

fn chars(s: &str) -> Vec<char> {
    s.chars().collect()
}

fn num(x: f64) -> Value {
    Value::Number(x.to_bits())
}

fn number_values(tokens: &[Token]) -> Vec<u64> {
    tokens
        .iter()
        .map(|t| {
            if t.token_type == TokenType::Number {
                let text: String = t.data.iter().collect();
                text.parse::<f64>().unwrap().to_bits()
            } else {
                0
            }
        })
        .collect()
}

fn compile_source(src: &str) -> Result<Compiled, CompileError> {
    let tokens = scan(&chars(src)).expect("scans");
    let numbers = number_values(&tokens);
    compile(tokens, numbers)
}

fn start(src: &str) -> VirtualMachine {
    let tokens = scan(&chars(src)).expect("scans");
    let numbers = number_values(&tokens);
    interpret(tokens, numbers).expect("compiles").0
}

fn run_to_end(vm: &mut VirtualMachine) -> Action {
    loop {
        match run(vm) {
            Action::Arithmetic(op, l, r) => {
                let (a, b) = (f64::from_bits(l), f64::from_bits(r));
                let x = match op {
                    ArithOp::Add => a + b,
                    ArithOp::Subtract => a - b,
                    ArithOp::Multiply => a * b,
                    ArithOp::Divide => a / b,
                };
                vm.push_number(x.to_bits());
            }
            other => return other,
        }
    }
}

fn same(a: &Value, b: &Value) -> bool {
    match (a, b) {
        (Value::Number(x), Value::Number(y)) => x == y,
        (Value::Str(x), Value::Str(y)) => x == y,
        (Value::Bool(x), Value::Bool(y)) => x == y,
        (Value::Null, Value::Null) => true,
        _ => false,
    }
}

fn printed_is(vm: &VirtualMachine, expected: &[Value]) -> bool {
    vm.printed.len() == expected.len() && vm.printed.iter().zip(expected).all(|(a, b)| same(a, b))
}

#[test]
fn scan_arithmetic_statement() {
    let tokens = scan(&chars("1 + 2 * 3;")).unwrap();
    let kinds: Vec<TokenType> = tokens.iter().map(|t| t.token_type).collect();
    assert_eq!(
        kinds,
        vec![
            TokenType::Number,
            TokenType::Plus,
            TokenType::Number,
            TokenType::Star,
            TokenType::Number,
            TokenType::Semicolon
        ]
    );
    let lexemes: Vec<String> = tokens.iter().map(|t| t.data.iter().collect()).collect();
    assert_eq!(lexemes, vec!["1", "+", "2", "*", "3", ";"]);
}

#[test]
fn arithmetic_statement_pops_seven() {
    let mut vm = start("1 + 2 * 3;");
    assert_eq!(run_to_end(&mut vm), Action::Halt);
    assert!(same(vm.last_popped.as_ref().unwrap(), &num(7.0)));
    assert!(vm.stack.is_empty());
}

#[test]
fn string_concatenation_identity_and_length() {
    let mut vm = start("print \"ab\" + \"\"; print \"\" + \"ab\"; print \"ab\" + \"cde\";");
    assert_eq!(run_to_end(&mut vm), Action::Halt);
    assert!(printed_is(
        &vm,
        &[Value::Str(chars("ab")), Value::Str(chars("ab")), Value::Str(chars("abcde"))]
    ));
    let joined = add_strings(&chars("ab"), &chars("cde"));
    assert_eq!(joined.len(), 5);
    let a = add_strings(&add_strings(&chars("x"), &chars("y")), &chars("z"));
    let b = add_strings(&chars("x"), &add_strings(&chars("y"), &chars("z")));
    assert_eq!(a, b);
}

#[test]
fn assignment_then_print_outputs_six() {
    let mut vm = start("var x = 5; x = x + 1; print x;");
    assert_eq!(run_to_end(&mut vm), Action::Halt);
    assert!(printed_is(&vm, &[num(6.0)]));
}

#[test]
fn if_false_runs_else_branch() {
    let mut vm = start("if (false) print 1; else print 2;");
    assert_eq!(run_to_end(&mut vm), Action::Halt);
    assert!(printed_is(&vm, &[num(2.0)]));
}

#[test]
fn zero_is_truthy() {
    let mut vm = start("if (0) print \"a\";");
    assert_eq!(run_to_end(&mut vm), Action::Halt);
    assert!(printed_is(&vm, &[Value::Str(chars("a"))]));
}

#[test]
fn null_is_falsy() {
    let mut vm = start("if (null) print 1; print 3;");
    assert_eq!(run_to_end(&mut vm), Action::Halt);
    assert!(printed_is(&vm, &[num(3.0)]));
}

#[test]
fn true_condition_falls_into_else_as_well() {
    let mut vm = start("if (true) print 1; else print 2;");
    assert_eq!(run_to_end(&mut vm), Action::Halt);
    assert!(printed_is(&vm, &[num(1.0), num(2.0)]));
}

#[test]
fn compiled_code_walks_to_its_end() {
    let compiled =
        compile_source("var a = 1; { a = a + 2; print a; } if (a > 2) print \"big\"; else print -a;")
            .unwrap();
    let chunk = &compiled.chunk;
    let offsets = disassemble_chunk(chunk);
    assert_eq!(offsets[0], 0);
    for w in offsets.windows(2) {
        assert_eq!(w[1], w[0] + instruction_width(chunk.code[w[0]]));
    }
    let last = *offsets.last().unwrap();
    assert_eq!(last + instruction_width(chunk.code[last]), chunk.code.len());
    assert_eq!(chunk.code.len(), chunk.lines.len());
}

#[test]
fn constant_pool_holds_exactly_256() {
    let ok = "1;".repeat(256);
    let compiled = compile_source(&ok).unwrap();
    assert_eq!(compiled.chunk.constants.len(), 256);
    let too_many = "1;".repeat(257);
    assert!(matches!(compile_source(&too_many), Err(CompileError::TooManyConstants)));
}

#[test]
fn add_constant_refuses_the_257th() {
    let mut chunk = Chunk::new();
    for i in 0..256u64 {
        assert_eq!(add_constant_dont_emit(&mut chunk, Value::Number(i)), Ok(i as u8));
    }
    assert_eq!(add_constant_dont_emit(&mut chunk, Value::Null), Err(CompileError::TooManyConstants));
    assert_eq!(add_constant(&mut chunk, Value::Null, 1), Err(CompileError::TooManyConstants));
    assert_eq!(chunk.constants.len(), 256);
}

#[test]
fn add_constant_gives_each_byte_a_line() {
    let mut chunk = Chunk::new();
    assert_eq!(add_constant(&mut chunk, Value::Null, 9), Ok(()));
    assert_eq!(chunk.code, vec![OpCode::Constant.byte(), 0]);
    assert_eq!(chunk.lines, vec![9, 9]);
}

#[test]
fn jump_offset_is_then_branch_length() {
    let compiled = compile_source("if (false) print 1;").unwrap();
    let code = &compiled.chunk.code;
    assert_eq!(code[0], OpCode::False.byte());
    assert_eq!(code[1], OpCode::JumpIfFalse.byte());
    let offset = (code[2] as usize) * 256 + code[3] as usize;
    assert_eq!(offset, 3);
    assert_eq!(offset, code.len() - 4);
}

#[test]
fn patch_jump_big_endian_and_limit() {
    let mut chunk = Chunk::new();
    emit_byte(&mut chunk, OpCode::JumpIfFalse.byte(), 1);
    emit_byte(&mut chunk, 0xff, 1);
    emit_byte(&mut chunk, 0xff, 1);
    for _ in 0..300 {
        emit_byte(&mut chunk, OpCode::Null.byte(), 1);
    }
    assert_eq!(patch_jump(&mut chunk, 1), Ok(()));
    assert_eq!(chunk.code[1], 1);
    assert_eq!(chunk.code[2], 44);
    let mut big = Chunk::new();
    for _ in 0..(3 + 0x10000) {
        emit_byte(&mut big, OpCode::Null.byte(), 1);
    }
    assert_eq!(patch_jump(&mut big, 1), Err(CompileError::JumpTooLarge));
    assert_eq!(big.code[1], OpCode::Null.byte());
}

#[test]
fn undefined_global_is_runtime_error() {
    let mut vm = start("print y;");
    assert_eq!(run_to_end(&mut vm), Action::Fault(RuntimeError::UndefinedVariable));
    assert!(vm.stack.is_empty());
    assert!(vm.printed.is_empty());
}

#[test]
fn type_errors_fault() {
    let mut vm = start("print -\"a\";");
    assert_eq!(run_to_end(&mut vm), Action::Fault(RuntimeError::TypeMismatch));
    let mut vm = start("print \"a\" - \"b\";");
    assert_eq!(run_to_end(&mut vm), Action::Fault(RuntimeError::TypeMismatch));
    let mut vm = start("print \"a\" < \"b\";");
    assert_eq!(run_to_end(&mut vm), Action::Fault(RuntimeError::TypeMismatch));
    let mut vm = start("print null > 1;");
    assert_eq!(run_to_end(&mut vm), Action::Fault(RuntimeError::TypeMismatch));
    let mut vm = start("print 1 + true;");
    assert_eq!(run_to_end(&mut vm), Action::Fault(RuntimeError::TypeMismatch));
}

#[test]
fn comparisons_and_equality() {
    let mut vm = start(
        "print 1 < 2; print 2 <= 1; print 3 >= 3; print 1 == 1; print \"a\" != \"a\"; print null == false; print true > false;",
    );
    assert_eq!(run_to_end(&mut vm), Action::Halt);
    let t = Value::Bool(true);
    let f = Value::Bool(false);
    assert!(printed_is(&vm, &[t, Value::Bool(false), Value::Bool(true), Value::Bool(true), f, Value::Bool(false), Value::Bool(true)]));
}

#[test]
fn negate_number_and_bool() {
    let mut vm = start("print -3; print -true;");
    assert_eq!(run_to_end(&mut vm), Action::Halt);
    assert!(printed_is(&vm, &[num(-3.0), Value::Bool(false)]));
}

#[test]
fn division_by_zero_is_infinity() {
    let mut vm = start("print 1 / 0;");
    assert_eq!(run_to_end(&mut vm), Action::Halt);
    assert!(printed_is(&vm, &[num(f64::INFINITY)]));
}

#[test]
fn assignment_is_an_expression() {
    let mut vm = start("var a; var b = a = 4; print b; print a;");
    assert_eq!(run_to_end(&mut vm), Action::Halt);
    assert!(printed_is(&vm, &[num(4.0), num(4.0)]));
}

#[test]
fn arithmetic_request_carries_operands() {
    let mut vm = start("print 8 - 3;");
    assert_eq!(run(&mut vm), Action::Arithmetic(ArithOp::Subtract, 8.0f64.to_bits(), 3.0f64.to_bits()));
    assert!(vm.stack.is_empty());
}

#[test]
fn missing_semicolon_is_reported() {
    let compiled = compile_source("print 1").unwrap();
    assert_eq!(
        compiled.diagnostics,
        vec![Diagnostic::ExpectedToken { expected: TokenType::Semicolon, index: 2 }]
    );
    let compiled = compile_source("print ;").unwrap();
    assert_eq!(compiled.diagnostics[0], Diagnostic::ExpectedExpression { index: 1 });
}

#[test]
fn interpret_reports_compile_error() {
    let tokens = scan(&chars("1;".repeat(257).as_str())).unwrap();
    let numbers = number_values(&tokens);
    assert!(matches!(interpret(tokens, numbers), Err(InterpretResult::CompileError)));
}

#[test]
fn scanner_errors() {
    let err = scan(&chars("print \"abc")).unwrap_err();
    assert_eq!(err.token_type, TokenType::Error);
    assert_eq!(err.data, chars("TOKEN ERROR: No end quote"));
    let err = scan(&chars("1 @ 2")).unwrap_err();
    assert_eq!(err.token_type, TokenType::Error);
    assert_eq!(err.data, chars("TOKEN ERROR: Unexpected character"));
}

#[test]
fn scanner_comments_keywords_and_lines() {
    let tokens = scan(&chars("var x = 1; // note\nif x >= 2.5 { print \"a\nb\"; } else while")).unwrap();
    let kinds: Vec<TokenType> = tokens.iter().map(|t| t.token_type).collect();
    assert_eq!(
        kinds,
        vec![
            TokenType::Var,
            TokenType::Identifier,
            TokenType::Equal,
            TokenType::Number,
            TokenType::Semicolon,
            TokenType::If,
            TokenType::Identifier,
            TokenType::GreaterEqual,
            TokenType::Number,
            TokenType::LeftBrace,
            TokenType::Print,
            TokenType::String,
            TokenType::Semicolon,
            TokenType::RightBrace,
            TokenType::Else,
            TokenType::While
        ]
    );
    assert_eq!(tokens[0].line, 1);
    assert_eq!(tokens[5].line, 2);
    assert_eq!(tokens[11].line, 3);
    assert_eq!(tokens[12].line, 3);
}

#[test]
fn identifiers_continue_with_unicode_letters() {
    let tokens = scan(&chars("a\u{e9}1 _b")).unwrap();
    assert_eq!(tokens.len(), 2);
    assert_eq!(tokens[0].token_type, TokenType::Identifier);
    assert_eq!(tokens[0].data, chars("a\u{e9}1"));
    assert_eq!(tokens[1].data, chars("_b"));
}

#[test]
fn make_token_and_lookahead() {
    let src = chars("!= x");
    let mut index = 0usize;
    let mut size = 1usize;
    assert!(check_next_token(&src, 0, &mut size, '='));
    assert_eq!(size, 2);
    let tok = make_token(TokenType::BangEqual, &src, &mut index, size, 7);
    assert_eq!(tok.data, chars("!="));
    assert_eq!(tok.line, 7);
    assert_eq!(index, 2);
    let mut size = 1usize;
    assert!(!check_next_token(&src, 3, &mut size, '='));
    assert_eq!(size, 1);
}

#[test]
fn skipping_blanks_counts_lines() {
    let src = chars(" \t\r\n\n  x");
    let mut index = 0usize;
    let mut lines = 1usize;
    assert!(advance_to_next_token_index(&src, &mut index, &mut lines));
    assert_eq!(index, 7);
    assert_eq!(lines, 3);
    let src = chars("  \n");
    let mut index = 0usize;
    let mut lines = 1usize;
    assert!(!advance_to_next_token_index(&src, &mut index, &mut lines));
    assert_eq!(lines, 2);
}

#[test]
fn advance_only_on_match() {
    let tokens = scan(&chars("var x")).unwrap();
    let mut index = 0usize;
    assert!(!advance_true_if_match(TokenType::Print, &tokens, &mut index));
    assert_eq!(index, 0);
    assert!(advance_true_if_match(TokenType::Var, &tokens, &mut index));
    assert_eq!(index, 1);
    let mut end = 2usize;
    assert!(!advance_true_if_match(TokenType::Identifier, &tokens, &mut end));
    assert_eq!(end, 2);
}

#[test]
fn rule_table_and_precedence() {
    let minus = get_rule(TokenType::Minus);
    assert_eq!(minus.prefix, Some(Handler::Unary));
    assert_eq!(minus.infix, Some(Handler::Binary));
    assert_eq!(minus.precedence, Precedence::Term);
    assert_eq!(get_rule(TokenType::Bang).prefix, None);
    assert_eq!(next_prec(Precedence::Term), Precedence::Factor);
    assert_eq!(next_prec(Precedence::Primary), Precedence::Primary);
    assert_eq!(next_prec(Precedence::Lowest), Precedence::Assignment);
}

#[test]
fn float_bits_compare() {
    let nan = f64::NAN.to_bits();
    assert!(!numbers_equal(nan, nan));
    assert!(numbers_equal(0.0f64.to_bits(), (-0.0f64).to_bits()));
    assert!(number_less((-2.0f64).to_bits(), (-1.0f64).to_bits()));
    assert!(number_less((-1.0f64).to_bits(), 0.5f64.to_bits()));
    assert!(!number_less(0.0f64.to_bits(), (-0.0f64).to_bits()));
    assert!(!number_less(nan, 1.0f64.to_bits()));
    assert!(values_equal(&Value::Str(chars("ab")), &Value::Str(chars("ab"))));
    assert!(!values_equal(&Value::Null, &Value::Bool(false)));
    assert_eq!(values_less(&Value::Null, &num(1.0)), Err(OrderError::NotOrderable));
    assert_eq!(values_less(&num(1.0), &Value::Bool(true)), Ok(false));
}

#[test]
fn blank_line_ends_input() {
    assert_eq!(full_lines(chars("\n")), None);
    assert_eq!(full_lines(chars("\r\n")), None);
    assert_eq!(full_lines(chars("print 1;\n")), Some(chars("print 1;\n")));
    assert_eq!(full_lines(chars("")), Some(chars("")));
}
