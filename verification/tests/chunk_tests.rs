use lox_vm::chunk::{Chunk, LineInfo};
use lox_vm::error::CompileError;
use lox_vm::opcode::OpCode;
use lox_vm::value::Value;

#[test]
fn write_op_constant() {
    let mut chunk = Chunk::default();
    chunk
        .write_constant(Value::Number((1.2f64).to_bits()), 1)
        .unwrap();
    assert_eq!(chunk.code, vec![OpCode::Constant as u8, 0]);
}

#[test]
fn write_op_return() {
    let mut chunk = Chunk::default();
    chunk.write(OpCode::Return as u8, 1);
    assert_eq!(chunk.code, vec![OpCode::Return as u8]);
}

#[test]
fn test_line_info() {
    let mut chunk = Chunk::default();
    chunk
        .write_constant(Value::Number((1.2f64).to_bits()), 1)
        .unwrap();
    chunk.write(OpCode::Return as u8, 3);
    chunk.write(OpCode::Return as u8, 3);
    chunk.write(OpCode::Return as u8, 3);
    chunk.write(OpCode::Return as u8, 3);
    chunk.write(OpCode::Return as u8, 3);
    chunk.write(OpCode::Return as u8, 5);
    chunk.write(OpCode::Return as u8, 5);
    chunk.write(OpCode::Return as u8, 6);
    chunk
        .write_constant(Value::Number((1.2f64).to_bits()), 6)
        .unwrap();
    chunk.write(OpCode::Return as u8, 7);

    assert_eq!(
        chunk.lines,
        vec![
            LineInfo {
                count: 2,
                number: 1,
            },
            LineInfo {
                count: 5,
                number: 3,
            },
            LineInfo {
                count: 2,
                number: 5,
            },
            LineInfo {
                count: 3,
                number: 6,
            },
            LineInfo {
                count: 1,
                number: 7,
            },
        ]
    );
}

#[test]
fn test_get_line() {
    let mut chunk = Chunk::default();
    chunk
        .write_constant(Value::Number((1.2f64).to_bits()), 1)
        .unwrap();
    chunk.write(OpCode::Return as u8, 3);
    chunk.write(OpCode::Return as u8, 3);
    chunk.write(OpCode::Return as u8, 3);
    chunk.write(OpCode::Return as u8, 3);
    chunk.write(OpCode::Return as u8, 3);
    chunk.write(OpCode::Return as u8, 5);
    chunk.write(OpCode::Return as u8, 5);
    chunk.write(OpCode::Return as u8, 6);
    chunk
        .write_constant(Value::Number((1.2f64).to_bits()), 6)
        .unwrap();
    chunk.write(OpCode::Return as u8, 7);

    assert_eq!(chunk.get_line(0), 1);
    assert_eq!(chunk.get_line(1), 1);
    assert_eq!(chunk.get_line(6), 3);
    assert_eq!(chunk.get_line(7), 5);
    assert_eq!(chunk.get_line(12), 7);
}

#[test]
fn many_constants() {
    let mut chunk = Chunk::default();
    for i in 0..(255 * 255) {
        chunk.write_constant(Value::Number((0f64).to_bits()), i).unwrap();
    }

    // last index that can be stored in 1 byte
    assert_eq!(chunk.code[255 * 2 + 0], OpCode::Constant as u8);
    assert_eq!(chunk.code[255 * 2 + 1], 255);

    // first index which needs 3 bytes for storing
    assert_eq!(chunk.code[256 * 2 + 0], OpCode::ConstantLong as u8);
    let h = chunk.code[256 * 2 + 1];
    let m = chunk.code[256 * 2 + 2];
    let l = chunk.code[256 * 2 + 3];
    assert_eq!(256, u32::from_be_bytes([0, h, m, l]));

    // last index in constant vector
    let last_idx = chunk.code.len() - 1;
    assert_eq!(chunk.code[last_idx - 3], OpCode::ConstantLong as u8);
    let h = chunk.code[last_idx - 2];
    let m = chunk.code[last_idx - 1];
    let l = chunk.code[last_idx - 0];
    assert_eq!(255 * 255 - 1, u32::from_be_bytes([0, h, m, l]));
}

#[test]
fn disassembly_walks_instruction_by_instruction() {
    let mut chunk = Chunk::default();
    chunk
        .write_constant(Value::Number((1.2f64).to_bits()), 1)
        .unwrap();
    chunk.write(OpCode::Negate as u8, 1);
    chunk.write(OpCode::Return as u8, 2);

    let mut line = String::new();
    let next = chunk.disassemble_instruction(0, &mut line).unwrap();
    assert_eq!(next, 2);
    assert!(line.starts_with("0000    1 OP_CONSTANT "));
    assert!(line.contains("0 Number("));

    let mut line = String::new();
    let next = chunk.disassemble_instruction(next, &mut line).unwrap();
    assert_eq!(next, 3);
    assert!(line.starts_with("0002    | OP_NEGATE"));

    let mut line = String::new();
    let next = chunk.disassemble_instruction(next, &mut line).unwrap();
    assert_eq!(next, 4);
    assert!(line.starts_with("0003    2 OP_RETURN"));

    let mut line = String::new();
    assert_eq!(chunk.disassemble_instruction(next, &mut line), None);

    let listing = chunk.disassemble("test chunk");
    assert!(listing.starts_with("== test chunk ==\n"));
    assert_eq!(listing.lines().count(), 4);
}

#[test]
fn the_pool_overflows_exactly_past_the_greatest_long_index() {
    let mut chunk = Chunk::default();
    // a pool holding every index below the long form's limit still takes one
    chunk.constants = vec![Value::Nil; 0xFF_FFFF];
    assert_eq!(chunk.add_constant(Value::Boolean(true)), Ok(0xFF_FFFF));
    // now every addressable index is taken
    assert_eq!(
        chunk.add_constant(Value::Nil),
        Err(CompileError::ConstantPoolOverflow)
    );
    assert_eq!(
        chunk.write_constant(Value::Nil, 1),
        Err(CompileError::ConstantPoolOverflow)
    );
    assert!(chunk.code.is_empty());
}
