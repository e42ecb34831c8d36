use vstd::prelude::*;

use crate::chunk::{Chunk, ChunkModel, chunk_wf, write_model, write_constant_model};
use crate::error::CompileError;
use crate::expr::Expr;
use crate::opcode::{OpCode, opcode_byte};
use crate::token_type::TokenType;
use crate::value::Value;

verus! {

/// The expression forms the code generator lowers: literals, the unary
/// operators, the binary arithmetic and relational operators, grouping.
pub open spec fn is_compilable(e: Expr) -> bool
    decreases e,
{
    match e {
        Expr::NumericLiteral(_) => true,
        Expr::NilLiteral => true,
        Expr::BoolLiteral(_) => true,
        Expr::Unary { op, expr } => (op.token_type == TokenType::Minus || op.token_type
            == TokenType::Bang) && is_compilable(*expr),
        Expr::Binary { left, op, right } => binary_opcodes(op.token_type) is Some
            && is_compilable(*left) && is_compilable(*right),
        Expr::Grouping(inner) => is_compilable(*inner),
        _ => false,
    }
}

/// The opcode, or opcode pair, a binary operator token compiles to: the
/// derived forms `!=`, `>=`, `<=` become Equal, Less or Greater followed
/// by Not.
pub open spec fn binary_opcodes(t: TokenType) -> Option<(OpCode, Option<OpCode>)> {
    match t {
        TokenType::Plus => Some((OpCode::Add, None)),
        TokenType::Minus => Some((OpCode::Subtract, None)),
        TokenType::Star => Some((OpCode::Multiply, None)),
        TokenType::Slash => Some((OpCode::Divide, None)),
        TokenType::EqualEqual => Some((OpCode::Equal, None)),
        TokenType::Greater => Some((OpCode::Greater, None)),
        TokenType::Less => Some((OpCode::Less, None)),
        TokenType::BangEqual => Some((OpCode::Equal, Some(OpCode::Not))),
        TokenType::GreaterEqual => Some((OpCode::Less, Some(OpCode::Not))),
        TokenType::LessEqual => Some((OpCode::Greater, Some(OpCode::Not))),
        _ => None,
    }
}

/// What generating code for one expression does to the chunk: a post-order
/// walk that emits the operand code first and the operator last, so that
/// every expression leaves exactly one value on the future operand stack.
/// Operator bytes carry the line of their token; literals carry line 0.
pub open spec fn compile_expr_model(e: Expr, m: ChunkModel) -> Result<ChunkModel, CompileError>
    decreases e,
{
    match e {
        Expr::NumericLiteral(n) => write_constant_model(m, Value::Number(n), 0),
        Expr::NilLiteral => Ok(write_model(m, opcode_byte(OpCode::Nil), 0)),
        Expr::BoolLiteral(b) => Ok(
            write_model(
                m,
                opcode_byte(if b {
                    OpCode::True
                } else {
                    OpCode::False
                }),
                0,
            ),
        ),
        Expr::Unary { op, expr } => match compile_expr_model(*expr, m) {
            Err(e) => Err(e),
            Ok(m1) => {
                if op.token_type == TokenType::Minus {
                    Ok(write_model(m1, opcode_byte(OpCode::Negate), op.line))
                } else if op.token_type == TokenType::Bang {
                    Ok(write_model(m1, opcode_byte(OpCode::Not), op.line))
                } else {
                    Err(CompileError::UnsupportedExpression)
                }
            },
        },
        Expr::Binary { left, op, right } => match compile_expr_model(*left, m) {
            Err(e) => Err(e),
            Ok(m1) => match compile_expr_model(*right, m1) {
                Err(e) => Err(e),
                Ok(m2) => match binary_opcodes(op.token_type) {
                    Some((first, second)) => {
                        let m3 = write_model(m2, opcode_byte(first), op.line);
                        match second {
                            Some(not_op) => Ok(write_model(m3, opcode_byte(not_op), op.line)),
                            None => Ok(m3),
                        }
                    },
                    None => Err(CompileError::UnsupportedExpression),
                },
            },
        },
        Expr::Grouping(inner) => compile_expr_model(*inner, m),
        _ => Err(CompileError::UnsupportedExpression),
    }
}

/// What `compile` does: generate the expression, then a final Return.
pub open spec fn compile_model(e: Expr, m: ChunkModel) -> Result<ChunkModel, CompileError> {
    match compile_expr_model(e, m) {
        Ok(m1) => Ok(write_model(m1, opcode_byte(OpCode::Return), 0)),
        Err(er) => Err(er),
    }
}

/// The chunk `b` extends the chunk `a` without touching what `a` held:
/// code and constant pool of `a` are prefixes of those of `b`.
pub open spec fn chunk_extends(a: ChunkModel, b: ChunkModel) -> bool {
    &&& a.code.is_prefix_of(b.code)
    &&& a.constants.is_prefix_of(b.constants)
}

pub(crate) proof fn lemma_extends_trans(a: ChunkModel, b: ChunkModel, c: ChunkModel)
    requires
        chunk_extends(a, b),
        chunk_extends(b, c),
    ensures
        chunk_extends(a, c),
{
    assert(a.code =~= b.code.subrange(0, a.code.len() as int));
    assert(a.code =~= c.code.subrange(0, a.code.len() as int));
    assert(a.constants =~= b.constants.subrange(0, a.constants.len() as int));
    assert(a.constants =~= c.constants.subrange(0, a.constants.len() as int));
}

fn emit_byte(chunk: &mut Chunk, byte: u8, line: usize)
    requires
        chunk_wf(old(chunk)@),
    ensures
        chunk_wf(final(chunk)@),
        final(chunk)@ == write_model(old(chunk)@, byte, line),
{
    chunk.write(byte, line);
}

fn emit_bytes(chunk: &mut Chunk, byte1: u8, byte2: u8, line: usize)
    requires
        chunk_wf(old(chunk)@),
    ensures
        chunk_wf(final(chunk)@),
        final(chunk)@ == write_model(write_model(old(chunk)@, byte1, line), byte2, line),
{
    chunk.write(byte1, line);
    chunk.write(byte2, line);
}

fn emit_constant(chunk: &mut Chunk, value: Value, line: usize) -> (r: Result<(), CompileError>)
    requires
        chunk_wf(old(chunk)@),
    ensures
        chunk_wf(final(chunk)@),
        match write_constant_model(old(chunk)@, value, line) {
            Ok(m) => r == Ok::<(), CompileError>(()) && final(chunk)@ == m,
            Err(e) => r == Err::<(), CompileError>(e) && final(chunk)@ == old(chunk)@,
        },
{
    chunk.write_constant(value, line)
}

fn compile_expr(chunk: &mut Chunk, expr: &Expr) -> (r: Result<(), CompileError>)
    requires
        chunk_wf(old(chunk)@),
    ensures
        chunk_wf(final(chunk)@),
        match compile_expr_model(*expr, old(chunk)@) {
            Ok(m) => r == Ok::<(), CompileError>(()) && final(chunk)@ == m,
            Err(e) => r == Err::<(), CompileError>(e) && chunk_extends(
                old(chunk)@,
                final(chunk)@,
            ),
        },
    decreases *expr,
{
    match expr {
        Expr::NumericLiteral(n) => emit_constant(chunk, Value::Number(*n), 0),
        Expr::Unary { op, expr: inner } => {
            let ghost m0 = chunk@;
            match compile_expr(chunk, inner) {
                Ok(()) => {
                    if op.token_type == TokenType::Minus {
                        emit_byte(chunk, OpCode::Negate.as_byte(), op.line);
                        Ok(())
                    } else if op.token_type == TokenType::Bang {
                        emit_byte(chunk, OpCode::Not.as_byte(), op.line);
                        Ok(())
                    } else {
                        proof {
                            lemma_extends_refl(chunk@);
                            lemma_model_extends(*(*inner), m0);
                        }
                        Err(CompileError::UnsupportedExpression)
                    }
                },
                Err(e) => Err(e),
            }
        },
        Expr::Binary { left, op, right } => {
            let ghost m0 = chunk@;
            match compile_expr(chunk, left) {
                Ok(()) => {
                    let ghost m1 = chunk@;
                    match compile_expr(chunk, right) {
                        Ok(()) => {
                            let ghost m2 = chunk@;
                            match op.token_type {
                                TokenType::Plus => {
                                    emit_byte(chunk, OpCode::Add.as_byte(), op.line);
                                    Ok(())
                                },
                                TokenType::Minus => {
                                    emit_byte(chunk, OpCode::Subtract.as_byte(), op.line);
                                    Ok(())
                                },
                                TokenType::Star => {
                                    emit_byte(chunk, OpCode::Multiply.as_byte(), op.line);
                                    Ok(())
                                },
                                TokenType::Slash => {
                                    emit_byte(chunk, OpCode::Divide.as_byte(), op.line);
                                    Ok(())
                                },
                                TokenType::EqualEqual => {
                                    emit_byte(chunk, OpCode::Equal.as_byte(), op.line);
                                    Ok(())
                                },
                                TokenType::Greater => {
                                    emit_byte(chunk, OpCode::Greater.as_byte(), op.line);
                                    Ok(())
                                },
                                TokenType::Less => {
                                    emit_byte(chunk, OpCode::Less.as_byte(), op.line);
                                    Ok(())
                                },
                                TokenType::BangEqual => {
                                    emit_bytes(
                                        chunk,
                                        OpCode::Equal.as_byte(),
                                        OpCode::Not.as_byte(),
                                        op.line,
                                    );
                                    Ok(())
                                },
                                TokenType::GreaterEqual => {
                                    emit_bytes(
                                        chunk,
                                        OpCode::Less.as_byte(),
                                        OpCode::Not.as_byte(),
                                        op.line,
                                    );
                                    Ok(())
                                },
                                TokenType::LessEqual => {
                                    emit_bytes(
                                        chunk,
                                        OpCode::Greater.as_byte(),
                                        OpCode::Not.as_byte(),
                                        op.line,
                                    );
                                    Ok(())
                                },
                                _ => {
                                    proof {
                                        lemma_extends_refl(chunk@);
                                        lemma_model_extends(*(*left), m0);
                                        lemma_model_extends(*(*right), m1);
                                        lemma_extends_trans(m0, m1, m2);
                                    }
                                    Err(CompileError::UnsupportedExpression)
                                },
                            }
                        },
                        Err(e) => {
                            proof {
                                lemma_model_extends(*(*left), m0);
                                lemma_model_extends(*(*right), m1);
                                lemma_extends_trans(m0, m1, chunk@);
                            }
                            Err(e)
                        },
                    }
                },
                Err(e) => Err(e),
            }
        },
        Expr::Grouping(inner) => compile_expr(chunk, inner),
        Expr::NilLiteral => {
            emit_byte(chunk, OpCode::Nil.as_byte(), 0);
            Ok(())
        },
        Expr::BoolLiteral(b) => {
            if *b {
                emit_byte(chunk, OpCode::True.as_byte(), 0);
            } else {
                emit_byte(chunk, OpCode::False.as_byte(), 0);
            }
            Ok(())
        },
        _ => {
            proof {
                lemma_extends_refl(chunk@);
            }
            Err(CompileError::UnsupportedExpression)
        },
    }
}

pub(crate) proof fn lemma_extends_refl(a: ChunkModel)
    ensures
        chunk_extends(a, a),
{
    assert(a.code =~= a.code.subrange(0, a.code.len() as int));
    assert(a.constants =~= a.constants.subrange(0, a.constants.len() as int));
}

/// A successful generation only appends: the chunk it started from is a
/// prefix of the chunk it leaves.
pub(crate) proof fn lemma_model_extends(e: Expr, m: ChunkModel)
    ensures
        compile_expr_model(e, m) matches Ok(m1) ==> chunk_extends(m, m1),
    decreases e,
{
    lemma_extends_refl(m);
    match e {
        Expr::NumericLiteral(n) => {
            if m.constants.len() < 0x1000000 {
                match write_constant_model(m, Value::Number(n), 0) {
                    Ok(m1) => {
                        assert(m.code =~= m1.code.subrange(0, m.code.len() as int));
                        assert(m.constants =~= m1.constants.subrange(
                            0,
                            m.constants.len() as int,
                        ));
                    },
                    Err(_) => {},
                }
            }
        },
        Expr::NilLiteral => {
            lemma_write_extends(m);
        },
        Expr::BoolLiteral(_) => {
            lemma_write_extends(m);
        },
        Expr::Unary { op, expr } => {
            lemma_model_extends(*expr, m);
            match compile_expr_model(*expr, m) {
                Ok(m1) => {
                    lemma_write_extends(m1);
                    match compile_expr_model(e, m) {
                        Ok(m2) => {
                            lemma_extends_trans(m, m1, m2);
                        },
                        Err(_) => {},
                    }
                },
                Err(_) => {},
            }
        },
        Expr::Binary { left, op, right } => {
            lemma_model_extends(*left, m);
            match compile_expr_model(*left, m) {
                Ok(m1) => {
                    lemma_model_extends(*right, m1);
                    match compile_expr_model(*right, m1) {
                        Ok(m2) => {
                            lemma_write_extends(m2);
                            match binary_opcodes(op.token_type) {
                                Some((first, second)) => {
                                    let m3 = write_model(m2, opcode_byte(first), op.line);
                                    lemma_write_extends(m3);
                                    lemma_extends_trans(m, m1, m2);
                                    match second {
                                        Some(not_op) => {
                                            let m4 = write_model(
                                                m3,
                                                opcode_byte(not_op),
                                                op.line,
                                            );
                                            lemma_extends_trans(m, m2, m3);
                                            lemma_extends_trans(m, m3, m4);
                                        },
                                        None => {
                                            lemma_extends_trans(m, m2, m3);
                                        },
                                    }
                                },
                                None => {},
                            }
                        },
                        Err(_) => {},
                    }
                },
                Err(_) => {},
            }
        },
        Expr::Grouping(inner) => {
            lemma_model_extends(*inner, m);
        },
        _ => {},
    }
}

/// Appending one byte extends the chunk.
pub(crate) proof fn lemma_write_extends(m: ChunkModel)
    ensures
        forall|byte: u8, line: usize|
            chunk_extends(m, #[trigger] write_model(m, byte, line)),
{
    assert forall|byte: u8, line: usize|
        chunk_extends(m, #[trigger] write_model(m, byte, line)) by {
        let m1 = write_model(m, byte, line);
        assert(m.code =~= m1.code.subrange(0, m.code.len() as int));
        assert(m.constants =~= m1.constants.subrange(0, m.constants.len() as int));
    }
}

/// A successful generation only appends: the chunk the generator started
/// from is a prefix of the chunk it leaves.
pub proof fn lemma_compile_model_extends(e: Expr, m: ChunkModel)
    ensures
        compile_model(e, m) matches Ok(m1) ==> chunk_extends(m, m1),
{
    lemma_model_extends(e, m);
    match compile_expr_model(e, m) {
        Ok(m1) => {
            lemma_write_extends(m1);
            lemma_extends_trans(m, m1, write_model(m1, opcode_byte(OpCode::Return), 0));
        },
        Err(_) => {},
    }
}

/// Whatever the generator accepts is a compilable form.
pub proof fn lemma_compile_ok_compilable(e: Expr, m: ChunkModel)
    ensures
        compile_expr_model(e, m) is Ok ==> is_compilable(e),
    decreases e,
{
    match e {
        Expr::Unary { op, expr } => {
            lemma_compile_ok_compilable(*expr, m);
        },
        Expr::Binary { left, op, right } => {
            lemma_compile_ok_compilable(*left, m);
            match compile_expr_model(*left, m) {
                Ok(m1) => {
                    lemma_compile_ok_compilable(*right, m1);
                },
                Err(_) => {},
            }
        },
        Expr::Grouping(inner) => {
            lemma_compile_ok_compilable(*inner, m);
        },
        _ => {},
    }
}

/// Generates code for the expression into the chunk and closes it with a
/// Return. Fails only on an unsupported expression form or a full constant
/// pool; no partial chunk from a failed generation is meant to run.
pub fn compile(expr: &Expr, chunk: &mut Chunk) -> (r: Result<(), CompileError>)
    requires
        chunk_wf(old(chunk)@),
    ensures
        chunk_wf(final(chunk)@),
        match compile_model(*expr, old(chunk)@) {
            Ok(m) => r == Ok::<(), CompileError>(()) && final(chunk)@ == m,
            Err(e) => r == Err::<(), CompileError>(e) && chunk_extends(
                old(chunk)@,
                final(chunk)@,
            ),
        },
{
    match compile_expr(chunk, expr) {
        Ok(()) => {
            emit_byte(chunk, OpCode::Return.as_byte(), 0);
            Ok(())
        },
        Err(e) => Err(e),
    }
}

} // verus!
