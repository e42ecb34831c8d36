use lox_vm::chunk::Chunk;
use lox_vm::opcode::OpCode;
use lox_vm::value::Value;
use lox_vm::vm::VM;

#[test]
fn test_binary_ops() {
    let mut chunk = Chunk::default();
    let mut vm = VM::new();
    chunk
        .write_constant(Value::Number((1.2f64).to_bits()), 123)
        .unwrap();
    chunk
        .write_constant(Value::Number((3.4f64).to_bits()), 123)
        .unwrap();
    chunk.write(OpCode::Add as u8, 123);
    chunk
        .write_constant(Value::Number((5.6f64).to_bits()), 123)
        .unwrap();
    chunk.write(OpCode::Divide as u8, 123);
    chunk.write(OpCode::Negate as u8, 123);
    chunk.write(OpCode::Return as u8, 123);
    let ret = vm.run_bytecode(&chunk, false).unwrap();
    assert_eq!(ret, Value::Number((-0.8214285714285714f64).to_bits()));
}

#[test]
fn test_op_divide() {
    let mut chunk = Chunk::default();
    let mut vm = VM::new();
    chunk
        .write_constant(Value::Number((1.2f64).to_bits()), 123)
        .unwrap();
    chunk
        .write_constant(Value::Number((-2.4f64).to_bits()), 123)
        .unwrap();
    chunk.write(OpCode::Divide as u8, 123);
    chunk.write(OpCode::Return as u8, 123);
    let ret = vm.run_bytecode(&chunk, false).unwrap();
    assert_eq!(ret, Value::Number((-0.5f64).to_bits()));
}

#[test]
fn test_op_subtract() {
    let mut chunk = Chunk::default();
    let mut vm = VM::new();
    chunk
        .write_constant(Value::Number((100f64).to_bits()), 123)
        .unwrap();
    chunk
        .write_constant(Value::Number((10f64).to_bits()), 123)
        .unwrap();
    chunk.write(OpCode::Subtract as u8, 123);
    chunk.write(OpCode::Return as u8, 123);
    let ret = vm.run_bytecode(&chunk, false).unwrap();
    assert_eq!(ret, Value::Number((90f64).to_bits()));
}

#[test]
fn test_op_add() {
    let mut chunk = Chunk::default();
    let mut vm = VM::new();
    chunk
        .write_constant(Value::Number((100f64).to_bits()), 123)
        .unwrap();
    chunk
        .write_constant(Value::Number((10f64).to_bits()), 123)
        .unwrap();
    chunk.write(OpCode::Subtract as u8, 123);
    vm.run_bytecode(&chunk, false).unwrap();
    assert_eq!(
        vm.stack.last().unwrap(),
        &Value::Number((90f64).to_bits())
    );
}
