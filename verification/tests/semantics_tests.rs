use lox_vm::chunk::Chunk;
use lox_vm::compiler::compile;
use lox_vm::error::{CompileError, InterpretError, RuntimeError};
use lox_vm::expr::Expr;
use lox_vm::object::{Obj, ObjPtr};
use lox_vm::opcode::OpCode;
use lox_vm::parse_error::ParseError;
use lox_vm::parser::parse_expression;
use lox_vm::scanner::scan;
use lox_vm::token::Token;
use lox_vm::token_type::TokenType;
use lox_vm::value::Value;
use lox_vm::vm::VM;

#[test]
fn literal_compiles_and_runs_to_itself() {
    for n in [0.0f64, -0.0, 1.5, -123.25, f64::MAX, f64::MIN_POSITIVE, f64::INFINITY] {
        let mut chunk = Chunk::default();
        let mut vm = VM::new();
        compile(&Expr::NumericLiteral(n.to_bits()), &mut chunk).unwrap();
        let ret = vm.run_bytecode(&chunk, false).unwrap();
        assert_eq!(ret, Value::Number(n.to_bits()));
    }
}

#[test]
fn negate_on_boolean_faults_and_keeps_the_stack_count() {
    let mut chunk = Chunk::default();
    let mut vm = VM::new();
    chunk.write(OpCode::True as u8, 7);
    chunk.write(OpCode::Negate as u8, 7);
    chunk.write(OpCode::Return as u8, 7);
    let err = vm.run_bytecode(&chunk, false).unwrap_err();
    assert_eq!(err, RuntimeError::OperandMustBeNumber(7));
    // one value was on the stack before Negate; one is there after the fault
    assert_eq!(vm.stack.len(), 1);
    assert_eq!(vm.stack[0], Value::Boolean(true));
}

#[test]
fn comparison_of_boolean_and_number_faults() {
    for op in [OpCode::Greater, OpCode::Less] {
        let mut chunk = Chunk::default();
        let mut vm = VM::new();
        chunk.write(OpCode::True as u8, 3);
        chunk
            .write_constant(Value::Number((1f64).to_bits()), 3)
            .unwrap();
        chunk.write(op as u8, 3);
        chunk.write(OpCode::Return as u8, 3);
        let err = vm.run_bytecode(&chunk, false).unwrap_err();
        assert_eq!(err, RuntimeError::OperandsMustBeNumber(3));
        // both operands are consumed even on the fault
        assert_eq!(vm.stack.len(), 0);
    }
}

#[test]
fn nan_is_not_equal_to_itself() {
    let mut chunk = Chunk::default();
    let mut vm = VM::new();
    let nan = f64::NAN.to_bits();
    chunk.write_constant(Value::Number(nan), 1).unwrap();
    chunk.write_constant(Value::Number(nan), 1).unwrap();
    chunk.write(OpCode::Equal as u8, 1);
    chunk.write(OpCode::Return as u8, 1);
    let ret = vm.run_bytecode(&chunk, false).unwrap();
    assert_eq!(ret, Value::Boolean(false));
}

#[test]
fn zeros_of_both_signs_are_equal() {
    let mut chunk = Chunk::default();
    let mut vm = VM::new();
    chunk
        .write_constant(Value::Number((0.0f64).to_bits()), 1)
        .unwrap();
    chunk
        .write_constant(Value::Number((-0.0f64).to_bits()), 1)
        .unwrap();
    chunk.write(OpCode::Equal as u8, 1);
    chunk.write(OpCode::Return as u8, 1);
    let ret = vm.run_bytecode(&chunk, false).unwrap();
    assert_eq!(ret, Value::Boolean(true));
}

#[test]
fn concatenation_makes_a_fresh_object_with_joined_content() {
    let mut chunk = Chunk::default();
    let mut vm = VM::new();
    let a = vm.register(Obj::String(b"foo".to_vec()));
    let b = vm.register(Obj::String(b"bar".to_vec()));
    chunk.write_constant(Value::ObjPtr(a), 1).unwrap();
    chunk.write_constant(Value::ObjPtr(b), 1).unwrap();
    chunk.write(OpCode::Add as u8, 1);
    chunk.write(OpCode::Return as u8, 1);
    let ret = vm.run_bytecode(&chunk, false).unwrap();
    let ptr = match ret {
        Value::ObjPtr(ptr) => ptr,
        other => panic!("expected an object reference, got {:?}", other),
    };
    assert_ne!(ptr, a);
    assert_ne!(ptr, b);
    assert_eq!(ptr, ObjPtr(2));
    assert_eq!(vm.objects[ptr.0].into_string(), &b"foobar".to_vec());
    // the operands are untouched
    assert_eq!(vm.objects[a.0].into_string(), &b"foo".to_vec());
    assert_eq!(vm.objects[b.0].into_string(), &b"bar".to_vec());
}

#[test]
fn truthiness_follows_nil_and_false_only() {
    assert!(!Value::Nil.truthy());
    assert!(!Value::Boolean(false).truthy());
    assert!(Value::Boolean(true).truthy());
    assert!(Value::Number((0f64).to_bits()).truthy());
    assert!(Value::ObjPtr(ObjPtr(0)).truthy());
}

#[test]
fn not_rewrites_the_top_of_stack() {
    let mut chunk = Chunk::default();
    let mut vm = VM::new();
    chunk
        .write_constant(Value::Number((0f64).to_bits()), 1)
        .unwrap();
    chunk.write(OpCode::Not as u8, 1);
    chunk.write(OpCode::Return as u8, 1);
    // zero is truthy, so Not yields false
    let ret = vm.run_bytecode(&chunk, false).unwrap();
    assert_eq!(ret, Value::Boolean(false));
}

#[test]
fn end_of_code_yields_number_zero() {
    let chunk = Chunk::default();
    let mut vm = VM::new();
    let ret = vm.run_bytecode(&chunk, false).unwrap();
    assert_eq!(ret, Value::Number((0.0f64).to_bits()));
}

#[test]
fn checked_run_reports_stack_underflow_apart_from_faults() {
    let mut chunk = Chunk::default();
    let mut vm = VM::new();
    chunk.write(OpCode::Add as u8, 1);
    assert_eq!(vm.run_checked(&chunk, false), None);
}

#[test]
fn checked_run_reports_an_unknown_opcode_apart_from_faults() {
    let mut chunk = Chunk::default();
    let mut vm = VM::new();
    chunk.write(200, 1);
    assert_eq!(vm.run_checked(&chunk, false), None);
}

#[test]
fn opcodes_decode_back_from_their_bytes() {
    let all = [
        OpCode::Return,
        OpCode::Constant,
        OpCode::ConstantLong,
        OpCode::Negate,
        OpCode::Add,
        OpCode::Subtract,
        OpCode::Multiply,
        OpCode::Divide,
        OpCode::Nil,
        OpCode::True,
        OpCode::False,
        OpCode::Not,
        OpCode::Equal,
        OpCode::Greater,
        OpCode::Less,
    ];
    for (i, op) in all.into_iter().enumerate() {
        assert_eq!(op.as_byte(), i as u8);
        assert_eq!(OpCode::decode(i as u8), Some(op));
    }
    assert_eq!(OpCode::decode(15), None);
    assert_eq!(OpCode::decode(255), None);
}

#[test]
fn unsupported_expression_is_a_compile_fault() {
    let mut chunk = Chunk::default();
    let token = Token::new(TokenType::Identifier, b"x".to_vec(), 1);
    let err = compile(&Expr::Variable(token), &mut chunk).unwrap_err();
    assert_eq!(err, CompileError::UnsupportedExpression);
}

#[test]
fn derived_comparisons_compile_to_two_opcodes() {
    // 1 <= 2 becomes Greater then Not
    let source = "1 <= 2";
    let tokens = scan(source.as_bytes()).unwrap();
    let (expr, _) = parse_expression(&tokens, 0).unwrap();
    let mut chunk = Chunk::default();
    compile(&expr, &mut chunk).unwrap();
    assert_eq!(
        chunk.code,
        vec![
            OpCode::Constant as u8,
            0,
            OpCode::Constant as u8,
            1,
            OpCode::Greater as u8,
            OpCode::Not as u8,
            OpCode::Return as u8,
        ]
    );
    let mut vm = VM::new();
    let ret = vm.run_bytecode(&chunk, false).unwrap();
    assert_eq!(ret, Value::Boolean(true));
}

#[test]
fn whole_pipeline_computes_an_expression() {
    let mut chunk = Chunk::default();
    let mut vm = VM::new();
    let ret = vm.run("1 + 2 * 3", &mut chunk, false).unwrap();
    assert_eq!(ret, Value::Number((7f64).to_bits()));
}

#[test]
fn whole_pipeline_parses_decimals() {
    let mut chunk = Chunk::default();
    let mut vm = VM::new();
    let ret = vm.run("((1.2 + 3.4) / 5.6)", &mut chunk, false).unwrap();
    assert_eq!(ret, Value::Number(((1.2f64 + 3.4) / 5.6).to_bits()));
}

#[test]
fn pipeline_reports_a_runtime_fault_with_its_line() {
    let mut chunk = Chunk::default();
    let mut vm = VM::new();
    let err = vm.run("-true", &mut chunk, false).unwrap_err();
    assert_eq!(
        err,
        InterpretError::Runtime(RuntimeError::OperandMustBeNumber(1))
    );
}

#[test]
fn pipeline_reports_scan_faults() {
    let mut chunk = Chunk::default();
    let mut vm = VM::new();
    let err = vm.run("1 + @", &mut chunk, false).unwrap_err();
    assert_eq!(
        err,
        InterpretError::Scan(lox_vm::scan_error::ScanError::UnexpectedChar(b'@', 1))
    );
}

#[test]
fn pipeline_extends_one_chunk_across_runs() {
    let mut chunk = Chunk::default();
    let mut vm = VM::new();
    let first = vm.run("1 + 1", &mut chunk, false).unwrap();
    assert_eq!(first, Value::Number((2f64).to_bits()));
    let code_after_first = chunk.code.len();
    let second = vm.run("10 - 4", &mut chunk, false).unwrap();
    assert_eq!(second, Value::Number((6f64).to_bits()));
    assert!(chunk.code.len() > code_after_first);
}

#[test]
fn tracing_goes_to_the_sink_and_changes_nothing() {
    let mut quiet = VM::new();
    let mut traced = VM::new();
    let mut chunk_a = Chunk::default();
    let mut chunk_b = Chunk::default();
    let a = quiet.run("2 * 21", &mut chunk_a, false).unwrap();
    let b = traced.run("2 * 21", &mut chunk_b, true).unwrap();
    assert_eq!(a, b);
    assert!(quiet.trace.is_empty());
    assert!(!traced.trace.is_empty());
}

#[test]
fn invalid_assignment_target_is_reported() {
    let tokens = scan("1 = 2".as_bytes()).unwrap();
    let err = parse_expression(&tokens, 0).unwrap_err();
    assert!(matches!(err, ParseError::InvalidAssignment { .. }));
}

#[test]
fn missing_closing_paren_is_reported() {
    let tokens = scan("(1 + 2".as_bytes()).unwrap();
    let err = parse_expression(&tokens, 0).unwrap_err();
    assert!(matches!(
        err,
        ParseError::ExpectedSomething {
            expected: TokenType::RightParen,
            ..
        }
    ));
}

#[test]
fn a_lone_operator_is_an_invalid_token() {
    let tokens = scan("*".as_bytes()).unwrap();
    let err = parse_expression(&tokens, 0).unwrap_err();
    assert!(matches!(err, ParseError::InvalidToken { .. }));
}

#[test]
fn reset_stack_recovers_after_a_fault() {
    let mut chunk = Chunk::default();
    let mut vm = VM::new();
    let err = vm.run("-true", &mut chunk, false).unwrap_err();
    assert!(matches!(err, InterpretError::Runtime(_)));
    vm.reset_stack();
    assert!(vm.stack.is_empty());
}

#[test]
fn values_render_their_debug_text() {
    assert_eq!(Value::Nil.debug_text(), "Nil");
    assert_eq!(Value::Boolean(true).debug_text(), "Boolean(true)");
    assert_eq!(Value::Boolean(false).debug_text(), "Boolean(false)");
    assert_eq!(Value::ObjPtr(ObjPtr(120)).debug_text(), "ObjPtr(120)");
    assert_eq!(Value::Number((1.5f64).to_bits()).debug_text(), "Number(1.5)");
}
