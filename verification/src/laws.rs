use vstd::prelude::*;

use crate::chunk::{ChunkModel, line_at_spec, write_constant_model, write_model};
use crate::compiler::{binary_opcodes, compile_expr_model, compile_model, is_compilable};
use crate::compiler::{lemma_extends_trans, lemma_model_extends, lemma_write_extends};
use crate::double::{add_bits, div_bits, eq_bits, gt_bits, is_nan_bits, lt_bits, mul_bits,
    neg_bits, sub_bits};
use crate::error::{CompileError, RuntimeError};
use crate::expr::Expr;
use crate::object::ObjPtr;
use crate::opcode::{OpCode, opcode_byte};
use crate::token_type::TokenType;
use crate::value::{Value, truthy_spec, value_equal};
use crate::vm::{RunModel, big_index, model_run};
use vstd::arithmetic::div_mod::{lemma_fundamental_div_mod, lemma_div_denominator};

verus! {

/// Compiling a single numeric literal and running the generated code yields
/// exactly that number: from any chunk whose pool is not full, any starting
/// stack and any object registry, the run ends with the literal's double,
/// the stack as it began, and the instruction pointer at the end of the
/// code.
pub proof fn lemma_literal_round_trip(
    n: u64,
    m: ChunkModel,
    stack: Seq<Value>,
    objects: Seq<Seq<u8>>,
)
    requires
        m.constants.len() < 0x1000000,
    ensures
        (match compile_model(Expr::NumericLiteral(n), m) {
            Ok(m1) => model_run(m1, m.code.len() as nat, stack, objects) == (RunModel::Done {
                value: Value::Number(n),
                ip: m1.code.len() as nat,
                stack,
                objects,
            }),
            Err(_) => false,
        }),
{
    let idx = m.constants.len();
    match compile_model(Expr::NumericLiteral(n), m) {
        Ok(m1) => {
            let consts = m.constants.push(Value::Number(n));
            assert(m1.constants == consts);
            if idx < 256 {
                assert(m1.code =~= m.code + seq![
                    opcode_byte(OpCode::Constant),
                    idx as u8,
                    opcode_byte(OpCode::Return),
                ]);
                let l = m.code.len() as nat;
                assert(m1.code[l as int] == opcode_byte(OpCode::Constant));
                assert(m1.code[l as int + 1] == idx as u8);
                assert(m1.code[l as int + 2] == opcode_byte(OpCode::Return));
                assert(consts[idx as u8 as int] == Value::Number(n));
                let pushed = stack.push(Value::Number(n));
                assert(model_run(m1, l + 2, pushed, objects) == (RunModel::Done {
                    value: Value::Number(n),
                    ip: l + 3,
                    stack: pushed.drop_last(),
                    objects,
                }));
                assert(pushed.drop_last() =~= stack);
                assert(model_run(m1, l, stack, objects) == model_run(m1, l + 2, pushed, objects));
                assert(m1.code.len() == l + 3);
            } else {
                let h = (idx / 0x10000) as u8;
                let mid = ((idx / 0x100) % 0x100) as u8;
                let low = (idx % 0x100) as u8;
                assert(m1.code =~= m.code + seq![
                    opcode_byte(OpCode::ConstantLong),
                    h,
                    mid,
                    low,
                    opcode_byte(OpCode::Return),
                ]);
                let l = m.code.len() as nat;
                lemma_long_index_round_trip(idx as int);
                assert(big_index(h, mid, low) == idx);
                assert(consts[big_index(h, mid, low)] == Value::Number(n));
                let pushed = stack.push(Value::Number(n));
                assert(model_run(m1, l + 4, pushed, objects) == (RunModel::Done {
                    value: Value::Number(n),
                    ip: l + 5,
                    stack: pushed.drop_last(),
                    objects,
                }));
                assert(pushed.drop_last() =~= stack);
                assert(model_run(m1, l, stack, objects) == model_run(m1, l + 4, pushed, objects));
                assert(m1.code.len() == l + 5);
            }
        },
        Err(_) => {
            assert(false);
        },
    }
}

/// The three big-endian operand bytes of a long constant load decode back
/// to the index they were made from.
pub proof fn lemma_long_index_round_trip(idx: int)
    requires
        0 <= idx < 0x1000000,
    ensures
        big_index(
            (idx / 0x10000) as u8,
            ((idx / 0x100) % 0x100) as u8,
            (idx % 0x100) as u8,
        ) == idx,
{
    lemma_fundamental_div_mod(idx, 0x100);
    lemma_fundamental_div_mod(idx / 0x100, 0x100);
    lemma_div_denominator(idx, 0x100, 0x100);
}

/// The load form switches exactly at the 256-entry boundary: while the pool
/// holds at most 255 entries a constant load is the short form — opcode,
/// then the new index in one byte; from 256 up to the pool limit it is the
/// long form — opcode, then the new index in three big-endian bytes.
pub proof fn lemma_load_form(m: ChunkModel, value: Value, line: usize)
    ensures
        m.constants.len() <= 255 ==> (match write_constant_model(m, value, line) {
            Ok(m1) => m1.code == m.code + seq![
                opcode_byte(OpCode::Constant),
                m.constants.len() as u8,
            ] && m1.constants == m.constants.push(value),
            Err(_) => false,
        }),
        256 <= m.constants.len() < 0x1000000 ==> (match write_constant_model(m, value, line) {
            Ok(m1) => {
                &&& m1.code == m.code + seq![
                    opcode_byte(OpCode::ConstantLong),
                    ((m.constants.len() as int) / 0x10000) as u8,
                    (((m.constants.len() as int) / 0x100) % 0x100) as u8,
                    ((m.constants.len() as int) % 0x100) as u8,
                ]
                &&& big_index(
                    ((m.constants.len() as int) / 0x10000) as u8,
                    (((m.constants.len() as int) / 0x100) % 0x100) as u8,
                    ((m.constants.len() as int) % 0x100) as u8,
                ) == m.constants.len()
                &&& m1.constants == m.constants.push(value)
            },
            Err(_) => false,
        }),
        m.constants.len() >= 0x1000000 ==> write_constant_model(m, value, line) == Err::<
            ChunkModel,
            crate::error::CompileError,
        >(crate::error::CompileError::ConstantPoolOverflow),
{
    let idx = m.constants.len();
    if idx <= 255 {
        match write_constant_model(m, value, line) {
            Ok(m1) => {
                assert(m1.code =~= m.code + seq![opcode_byte(OpCode::Constant), idx as u8]);
            },
            Err(_) => {},
        }
    } else if idx < 0x1000000 {
        lemma_long_index_round_trip(idx as int);
        match write_constant_model(m, value, line) {
            Ok(m1) => {
                assert(m1.code =~= m.code + seq![
                    opcode_byte(OpCode::ConstantLong),
                    ((idx as int) / 0x10000) as u8,
                    (((idx as int) / 0x100) % 0x100) as u8,
                    ((idx as int) % 0x100) as u8,
                ]);
            },
            Err(_) => {},
        }
    }
}

/// Negate applied to a Boolean operand signals OperandMustBeNumber, with
/// the line of the instruction, and the operand stack after the fault has
/// exactly the count it had before the instruction: the operand stays,
/// nothing is pushed.
pub proof fn lemma_negate_fault(m: ChunkModel, ip: nat, stack: Seq<Value>, objects: Seq<Seq<u8>>)
    requires
        ip < m.code.len(),
        m.code[ip as int] == opcode_byte(OpCode::Negate),
        stack.len() > 0,
        stack.last() is Boolean,
    ensures
        model_run(m, ip, stack, objects) == (RunModel::Fault {
            error: RuntimeError::OperandMustBeNumber(line_at_spec(m.lines, ip as int)),
            ip: ip + 1,
            stack,
            objects,
        }),
        (match model_run(m, ip, stack, objects) {
            RunModel::Fault { stack: after, .. } => after.len() == stack.len(),
            _ => false,
        }),
{
}

/// Adding two string objects produces a new object whose content is the
/// byte-wise concatenation of both operands and whose handle differs from
/// both: the run continues with the new handle on the stack and the new
/// object registered after all existing ones.
pub proof fn lemma_concat_objects(
    m: ChunkModel,
    ip: nat,
    stack: Seq<Value>,
    objects: Seq<Seq<u8>>,
    pa: ObjPtr,
    pb: ObjPtr,
)
    requires
        ip < m.code.len(),
        m.code[ip as int] == opcode_byte(OpCode::Add),
        stack.len() >= 2,
        stack[stack.len() - 2] == Value::ObjPtr(pa),
        stack.last() == Value::ObjPtr(pb),
        pa.0 < objects.len(),
        pb.0 < objects.len(),
        objects.len() <= usize::MAX,
    ensures
        model_run(m, ip, stack, objects) == model_run(
            m,
            ip + 1,
            stack.take(stack.len() - 2).push(Value::ObjPtr(ObjPtr(objects.len() as usize))),
            objects.push(objects[pa.0 as int] + objects[pb.0 as int]),
        ),
        ObjPtr(objects.len() as usize) != pa,
        ObjPtr(objects.len() as usize) != pb,
        objects.push(objects[pa.0 as int] + objects[pb.0 as int]).last() == objects[pa.0 as int]
            + objects[pb.0 as int],
{
}

/// A NaN is not equal to itself: the Equal instruction on two copies of a
/// NaN pushes false.
pub proof fn lemma_nan_not_equal(n: u64)
    requires
        is_nan_bits(n),
    ensures
        !eq_bits(n, n),
        !value_equal(Value::Number(n), Value::Number(n)),
{
}

/// Equal on two numbers pushes their IEEE-754 equality; on two copies of a
/// NaN the run continues with false on the stack.
pub proof fn lemma_equal_step(m: ChunkModel, ip: nat, stack: Seq<Value>, objects: Seq<Seq<u8>>)
    requires
        ip < m.code.len(),
        m.code[ip as int] == opcode_byte(OpCode::Equal),
        stack.len() >= 2,
    ensures
        model_run(m, ip, stack, objects) == model_run(
            m,
            ip + 1,
            stack.take(stack.len() - 2).push(
                Value::Boolean(value_equal(stack[stack.len() - 2], stack.last())),
            ),
            objects,
        ),
{
}

/// Greater and Less demand two numbers: applied to a Boolean and a Number,
/// in either order, they signal OperandsMustBeNumber with the line of the
/// instruction, both operands consumed.
pub proof fn lemma_compare_fault(m: ChunkModel, ip: nat, stack: Seq<Value>, objects: Seq<Seq<u8>>)
    requires
        ip < m.code.len(),
        m.code[ip as int] == opcode_byte(OpCode::Greater) || m.code[ip as int] == opcode_byte(
            OpCode::Less,
        ),
        stack.len() >= 2,
        stack[stack.len() - 2] is Boolean || stack.last() is Boolean,
    ensures
        model_run(m, ip, stack, objects) == (RunModel::Fault {
            error: RuntimeError::OperandsMustBeNumber(line_at_spec(m.lines, ip as int)),
            ip: ip + 1,
            stack: stack.take(stack.len() - 2),
            objects,
        }),
{
}



/// What evaluating one compilable expression yields: the one value it
/// leaves on the operand stack, or the kind of runtime fault it signals —
/// `single` for the unary operand fault — together with the values the
/// fault leaves behind above the starting stack.
pub enum EvalOutcome {
    Value { value: Value },
    Fault { single: bool, residual: Seq<Value> },
}

/// The meaning of one binary instruction on its two operands, the left
/// popped second.
pub open spec fn eval_op(op: OpCode, a: Value, b: Value) -> EvalOutcome {
    match op {
        OpCode::Add => match (a, b) {
            (Value::Number(x), Value::Number(y)) => EvalOutcome::Value {
                value: Value::Number(add_bits(x, y)),
            },
            _ => EvalOutcome::Fault { single: false, residual: Seq::empty() },
        },
        OpCode::Subtract => match (a, b) {
            (Value::Number(x), Value::Number(y)) => EvalOutcome::Value {
                value: Value::Number(sub_bits(x, y)),
            },
            _ => EvalOutcome::Fault { single: false, residual: Seq::empty() },
        },
        OpCode::Multiply => match (a, b) {
            (Value::Number(x), Value::Number(y)) => EvalOutcome::Value {
                value: Value::Number(mul_bits(x, y)),
            },
            _ => EvalOutcome::Fault { single: false, residual: Seq::empty() },
        },
        OpCode::Divide => match (a, b) {
            (Value::Number(x), Value::Number(y)) => EvalOutcome::Value {
                value: Value::Number(div_bits(x, y)),
            },
            _ => EvalOutcome::Fault { single: false, residual: Seq::empty() },
        },
        OpCode::Equal => EvalOutcome::Value { value: Value::Boolean(value_equal(a, b)) },
        OpCode::Greater => match (a, b) {
            (Value::Number(x), Value::Number(y)) => EvalOutcome::Value {
                value: Value::Boolean(gt_bits(x, y)),
            },
            _ => EvalOutcome::Fault { single: false, residual: Seq::empty() },
        },
        OpCode::Less => match (a, b) {
            (Value::Number(x), Value::Number(y)) => EvalOutcome::Value {
                value: Value::Boolean(lt_bits(x, y)),
            },
            _ => EvalOutcome::Fault { single: false, residual: Seq::empty() },
        },
        _ => EvalOutcome::Fault { single: false, residual: Seq::empty() },
    }
}

/// The meaning of a binary operator token: its instruction, then — for the
/// derived forms — the Not that follows it.
pub open spec fn eval_binary(t: TokenType, a: Value, b: Value) -> EvalOutcome {
    match binary_opcodes(t) {
        Some((first, second)) => {
            let base = eval_op(first, a, b);
            match second {
                Some(_) => match base {
                    EvalOutcome::Value { value } => EvalOutcome::Value {
                        value: Value::Boolean(!truthy_spec(value)),
                    },
                    fault => fault,
                },
                None => base,
            }
        },
        None => EvalOutcome::Fault { single: false, residual: Seq::empty() },
    }
}

/// The direct meaning of a compilable expression: literals to their
/// values; unary minus negates a number and faults on anything else, with
/// its operand left in place; unary bang negates truthiness; a binary
/// operator evaluates its left operand first, then its right, then acts on
/// the pair, a fault consuming both; grouping is transparent. A fault
/// below an operand keeps every value the completed operands had pushed.
pub open spec fn eval_expr(e: Expr) -> EvalOutcome
    decreases e,
{
    match e {
        Expr::NumericLiteral(n) => EvalOutcome::Value { value: Value::Number(n) },
        Expr::BoolLiteral(b) => EvalOutcome::Value { value: Value::Boolean(b) },
        Expr::NilLiteral => EvalOutcome::Value { value: Value::Nil },
        Expr::Grouping(inner) => eval_expr(*inner),
        Expr::Unary { op, expr } => match eval_expr(*expr) {
            EvalOutcome::Value { value } => {
                if op.token_type == TokenType::Minus {
                    match value {
                        Value::Number(x) => EvalOutcome::Value {
                            value: Value::Number(neg_bits(x)),
                        },
                        _ => EvalOutcome::Fault { single: true, residual: seq![value] },
                    }
                } else {
                    EvalOutcome::Value { value: Value::Boolean(!truthy_spec(value)) }
                }
            },
            fault => fault,
        },
        Expr::Binary { left, op, right } => match eval_expr(*left) {
            EvalOutcome::Value { value: a } => match eval_expr(*right) {
                EvalOutcome::Value { value: b } => eval_binary(op.token_type, a, b),
                EvalOutcome::Fault { single, residual } => EvalOutcome::Fault {
                    single,
                    residual: seq![a] + residual,
                },
            },
            fault => fault,
        },
        _ => EvalOutcome::Fault { single: false, residual: Seq::empty() },
    }
}

proof fn lemma_prefix_index<T>(a: Seq<T>, b: Seq<T>, i: int)
    requires
        a.is_prefix_of(b),
        0 <= i < a.len(),
    ensures
        a[i] == b[i],
{
    assert(a[i] == b.subrange(0, a.len() as int)[i]);
}

/// The stack-balance contract of the code generator, against the machine's
/// own semantics: the code generated for one compilable expression, run on
/// any starting stack and registry inside any chunk that extends it,
/// either leaves exactly one new value — the expression's — on the stack
/// and carries on at the end of the generated code, or ends the run in the
/// runtime fault the expression's meaning assigns, never in an internal
/// invariant violation.
pub proof fn lemma_compile_segment_correct(
    e: Expr,
    m0: ChunkModel,
    m1: ChunkModel,
    big: ChunkModel,
    stack: Seq<Value>,
    objects: Seq<Seq<u8>>,
)
    requires
        is_compilable(e),
        compile_expr_model(e, m0) == Ok::<ChunkModel, CompileError>(m1),
        m1.code.is_prefix_of(big.code),
        m1.constants.is_prefix_of(big.constants),
    ensures
        (match eval_expr(e) {
            EvalOutcome::Value { value } => !(value is ObjPtr) && model_run(
                big,
                m0.code.len() as nat,
                stack,
                objects,
            ) == model_run(big, m1.code.len() as nat, stack.push(value), objects),
            EvalOutcome::Fault { single, residual } => {
                &&& model_run(big, m0.code.len() as nat, stack, objects) is Fault
                &&& (match model_run(big, m0.code.len() as nat, stack, objects) {
                    RunModel::Fault { error, ip, stack: after, objects: objs_after } => {
                        &&& after == stack + residual
                        &&& objs_after == objects
                        &&& (if single {
                            error is OperandMustBeNumber
                        } else {
                            error is OperandsMustBeNumber
                        })
                    },
                    _ => true,
                })
            },
        }),
    decreases e,
{
    let start = m0.code.len() as nat;
    match e {
        Expr::NumericLiteral(n) => {
            let idx = m0.constants.len();
            assert(m1.constants == m0.constants.push(Value::Number(n)));
            assert(m1.constants[idx as int] == Value::Number(n));
            lemma_prefix_index(m1.constants, big.constants, idx as int);
            if idx < 256 {
                assert(m1.code =~= m0.code + seq![opcode_byte(OpCode::Constant), idx as u8]);
                lemma_prefix_index(m1.code, big.code, start as int);
                lemma_prefix_index(m1.code, big.code, start as int + 1);
                assert(big.code[start as int] == opcode_byte(OpCode::Constant));
                assert(big.code[start as int + 1] == idx as u8);
                assert(model_run(big, start, stack, objects) == model_run(
                    big,
                    start + 2,
                    stack.push(Value::Number(n)),
                    objects,
                ));
            } else {
                let h = ((idx as int) / 0x10000) as u8;
                let mid = (((idx as int) / 0x100) % 0x100) as u8;
                let low = ((idx as int) % 0x100) as u8;
                assert(m1.code =~= m0.code + seq![opcode_byte(OpCode::ConstantLong), h, mid, low]);
                lemma_prefix_index(m1.code, big.code, start as int);
                lemma_prefix_index(m1.code, big.code, start as int + 1);
                lemma_prefix_index(m1.code, big.code, start as int + 2);
                lemma_prefix_index(m1.code, big.code, start as int + 3);
                lemma_long_index_round_trip(idx as int);
                assert(big_index(h, mid, low) == idx);
                assert(model_run(big, start, stack, objects) == model_run(
                    big,
                    start + 4,
                    stack.push(Value::Number(n)),
                    objects,
                ));
            }
        },
        Expr::BoolLiteral(b) => {
            assert(m1.code =~= m0.code + seq![
                opcode_byte(
                    if b {
                        OpCode::True
                    } else {
                        OpCode::False
                    },
                ),
            ]);
            lemma_prefix_index(m1.code, big.code, start as int);
            assert(model_run(big, start, stack, objects) == model_run(
                big,
                start + 1,
                stack.push(Value::Boolean(b)),
                objects,
            ));
        },
        Expr::NilLiteral => {
            assert(m1.code =~= m0.code + seq![opcode_byte(OpCode::Nil)]);
            lemma_prefix_index(m1.code, big.code, start as int);
            assert(model_run(big, start, stack, objects) == model_run(
                big,
                start + 1,
                stack.push(Value::Nil),
                objects,
            ));
        },
        Expr::Grouping(inner) => {
            lemma_compile_segment_correct(*inner, m0, m1, big, stack, objects);
        },
        Expr::Unary { op, expr } => {
            let m_inner = match compile_expr_model(*expr, m0) {
                Ok(m) => m,
                Err(_) => arbitrary(),
            };
            lemma_write_extends(m_inner);
            lemma_extends_trans_seq(m_inner, m1, big);
            lemma_compile_segment_correct(*expr, m0, m_inner, big, stack, objects);
            let li = m_inner.code.len() as nat;
            match eval_expr(*expr) {
                EvalOutcome::Value { value } => {
                    let spush = stack.push(value);
                    if op.token_type == TokenType::Minus {
                        assert(m1.code == m_inner.code.push(opcode_byte(OpCode::Negate)));
                        lemma_prefix_index(m1.code, big.code, li as int);
                        assert(big.code[li as int] == opcode_byte(OpCode::Negate));
                        match value {
                            Value::Number(x) => {
                                assert(spush.update(spush.len() - 1, Value::Number(neg_bits(x)))
                                    =~= stack.push(Value::Number(neg_bits(x))));
                                assert(model_run(big, li, spush, objects) == model_run(
                                    big,
                                    li + 1,
                                    stack.push(Value::Number(neg_bits(x))),
                                    objects,
                                ));
                            },
                            _ => {
                                assert(stack + seq![value] =~= spush);
                                assert(model_run(big, li, spush, objects) == (RunModel::Fault {
                                    error: RuntimeError::OperandMustBeNumber(
                                        line_at_spec(big.lines, li as int),
                                    ),
                                    ip: li + 1,
                                    stack: spush,
                                    objects,
                                }));
                            },
                        }
                    } else {
                        assert(m1.code == m_inner.code.push(opcode_byte(OpCode::Not)));
                        lemma_prefix_index(m1.code, big.code, li as int);
                        assert(big.code[li as int] == opcode_byte(OpCode::Not));
                        assert(spush.update(
                            spush.len() - 1,
                            Value::Boolean(!truthy_spec(value)),
                        ) =~= stack.push(Value::Boolean(!truthy_spec(value))));
                        assert(model_run(big, li, spush, objects) == model_run(
                            big,
                            li + 1,
                            stack.push(Value::Boolean(!truthy_spec(value))),
                            objects,
                        ));
                    }
                },
                EvalOutcome::Fault { .. } => {},
            }
        },
        Expr::Binary { left, op, right } => {
            let m_left = match compile_expr_model(*left, m0) {
                Ok(m) => m,
                Err(_) => arbitrary(),
            };
            let m_right = match compile_expr_model(*right, m_left) {
                Ok(m) => m,
                Err(_) => arbitrary(),
            };
            let pair = binary_opcodes(op.token_type).unwrap();
            let first = pair.0;
            let second = pair.1;
            let m_first = write_model(m_right, opcode_byte(first), op.line);
            lemma_write_extends(m_right);
            lemma_write_extends(m_first);
            match second {
                Some(not_op) => {
                    assert(m1 == write_model(m_first, opcode_byte(not_op), op.line));
                    lemma_extends_trans(m_right, m_first, m1);
                },
                None => {
                    assert(m1 == m_first);
                },
            }
            lemma_model_extends(*right, m_left);
            lemma_extends_trans_chunk_seq(m_left, m_right, m1);
            lemma_extends_trans_seq(m_right, m1, big);
            lemma_extends_trans_seq(m_left, m1, big);
            lemma_compile_segment_correct(*left, m0, m_left, big, stack, objects);
            let ll = m_left.code.len() as nat;
            let lr = m_right.code.len() as nat;
            match eval_expr(*left) {
                EvalOutcome::Value { value: a } => {
                    lemma_compile_segment_correct(
                        *right,
                        m_left,
                        m_right,
                        big,
                        stack.push(a),
                        objects,
                    );
                    match eval_expr(*right) {
                        EvalOutcome::Value { value: b } => {
                            let spp = stack.push(a).push(b);
                            lemma_prefix_index(m1.code, big.code, lr as int);
                            assert(big.code[lr as int] == opcode_byte(first));
                            assert(spp[spp.len() - 2] == a);
                            assert(spp.last() == b);
                            assert(spp.take(spp.len() - 2) =~= stack);
                            match eval_op(first, a, b) {
                                EvalOutcome::Value { value: v1 } => {
                                    assert(model_run(big, lr, spp, objects) == model_run(
                                        big,
                                        lr + 1,
                                        stack.push(v1),
                                        objects,
                                    ));
                                    match second {
                                        Some(not_op) => {
                                            lemma_prefix_index(m1.code, big.code, lr as int + 1);
                                            assert(big.code[lr as int + 1] == opcode_byte(not_op));
                                            let sv = stack.push(v1);
                                            assert(sv.update(
                                                sv.len() - 1,
                                                Value::Boolean(!truthy_spec(v1)),
                                            ) =~= stack.push(Value::Boolean(!truthy_spec(v1))));
                                            assert(model_run(big, lr + 1, sv, objects)
                                                == model_run(
                                                big,
                                                lr + 2,
                                                stack.push(Value::Boolean(!truthy_spec(v1))),
                                                objects,
                                            ));
                                        },
                                        None => {},
                                    }
                                },
                                EvalOutcome::Fault { .. } => {
                                    assert(stack + Seq::<Value>::empty() =~= stack);
                                    assert(model_run(big, lr, spp, objects) is Fault);
                                },
                            }
                        },
                        EvalOutcome::Fault { single, residual } => {
                            assert(stack.push(a) + residual =~= stack + (seq![a] + residual));
                        },
                    }
                },
                EvalOutcome::Fault { .. } => {},
            }
        },
        _ => {},
    }
}

/// Prefix extension carried across one more step.
proof fn lemma_extends_trans_seq(a: ChunkModel, b: ChunkModel, c: ChunkModel)
    requires
        a.code.is_prefix_of(b.code),
        a.constants.is_prefix_of(b.constants),
        b.code.is_prefix_of(c.code),
        b.constants.is_prefix_of(c.constants),
    ensures
        a.code.is_prefix_of(c.code),
        a.constants.is_prefix_of(c.constants),
{
    assert(a.code =~= c.code.subrange(0, a.code.len() as int));
    assert(a.constants =~= c.constants.subrange(0, a.constants.len() as int));
}

proof fn lemma_extends_trans_chunk_seq(a: ChunkModel, b: ChunkModel, c: ChunkModel)
    requires
        crate::compiler::chunk_extends(a, b),
        crate::compiler::chunk_extends(b, c),
    ensures
        a.code.is_prefix_of(c.code),
        a.constants.is_prefix_of(c.constants),
{
    lemma_extends_trans(a, b, c);
}

/// The whole generated unit — the expression's code closed by Return —
/// run from its start, yields exactly the expression's value with the
/// stack as it began, or the runtime fault the expression's meaning
/// assigns; it never hits an internal invariant violation.
pub proof fn lemma_compile_run_correct(
    e: Expr,
    m0: ChunkModel,
    m1: ChunkModel,
    stack: Seq<Value>,
    objects: Seq<Seq<u8>>,
)
    requires
        is_compilable(e),
        compile_model(e, m0) == Ok::<ChunkModel, CompileError>(m1),
    ensures
        !(model_run(m1, m0.code.len() as nat, stack, objects) is Stuck),
        (match eval_expr(e) {
            EvalOutcome::Value { value } => model_run(m1, m0.code.len() as nat, stack, objects)
                == (RunModel::Done {
                value,
                ip: m1.code.len() as nat,
                stack,
                objects,
            }),
            EvalOutcome::Fault { single, residual } => {
                &&& model_run(m1, m0.code.len() as nat, stack, objects) is Fault
                &&& (match model_run(m1, m0.code.len() as nat, stack, objects) {
                    RunModel::Fault { error, ip, stack: after, objects: objs_after } => {
                        &&& after == stack + residual
                        &&& objs_after == objects
                        &&& (if single {
                            error is OperandMustBeNumber
                        } else {
                            error is OperandsMustBeNumber
                        })
                    },
                    _ => true,
                })
            },
        }),
{
    let m_expr = match compile_expr_model(e, m0) {
        Ok(m) => m,
        Err(_) => arbitrary(),
    };
    assert(m1 == write_model(m_expr, opcode_byte(OpCode::Return), 0));
    lemma_write_extends(m_expr);
    lemma_extends_refl_laws(m1);
    lemma_extends_trans_seq(
        m_expr,
        m1,
        m1,
    );
    lemma_compile_segment_correct(e, m0, m_expr, m1, stack, objects);
    let le = m_expr.code.len() as nat;
    match eval_expr(e) {
        EvalOutcome::Value { value } => {
            lemma_prefix_index(m1.code, m1.code, le as int);
            assert(m1.code[le as int] == opcode_byte(OpCode::Return));
            let sv = stack.push(value);
            assert(sv.drop_last() =~= stack);
            assert(model_run(m1, le, sv, objects) == (RunModel::Done {
                value,
                ip: le + 1,
                stack,
                objects,
            }));
        },
        EvalOutcome::Fault { .. } => {},
    }
}

proof fn lemma_extends_refl_laws(a: ChunkModel)
    ensures
        a.code.is_prefix_of(a.code),
        a.constants.is_prefix_of(a.constants),
{
    assert(a.code =~= a.code.subrange(0, a.code.len() as int));
    assert(a.constants =~= a.constants.subrange(0, a.constants.len() as int));
}

} // verus!
