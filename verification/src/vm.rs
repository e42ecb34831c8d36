use vstd::prelude::*;

use crate::chunk::{Chunk, ChunkModel, chunk_wf, line_at_spec};
use crate::compiler::{chunk_extends, compile, lemma_compile_model_extends,
    lemma_compile_ok_compilable};
use crate::double::{add_bits, sub_bits, mul_bits, div_bits, neg_bits, lt_bits, gt_bits};
use crate::double::{double_add, double_sub, double_mul, double_div, double_neg, double_lt,
    double_gt};
use crate::error::{InterpretError, RuntimeError};
use crate::laws::lemma_compile_run_correct;
use crate::object::{Obj, ObjPtr};
use crate::opcode::{OpCode, decode_byte};
use crate::parser::{parse_expression, tokens_wf};
use crate::scanner::{lemma_scan_from_wf, scan, scan_from, token_models_wf, tokens_view};
use crate::value::{Value, truthy_spec, value_equal};
use vstd::pervasive::unreached;
use vstd::string::StringSliceAdditionalSpecFns;

verus! {

/// The byte contents of the objects a registry holds, in registration
/// order.
pub open spec fn objects_view(objs: Seq<Obj>) -> Seq<Seq<u8>> {
    objs.map_values(|o: Obj| o@)
}

/// Where a run of the fetch-decode-execute loop ends: normally with a value
/// (an executed Return, or the instruction pointer reaching the end of the
/// code); with a runtime fault; or stuck on an internal invariant violation
/// (an operand-stack underflow, a byte outside the opcode range, a truncated
/// operand, a constant or object index out of range), which marks a defect
/// of the code generator, not of the user program.
pub enum RunModel {
    Done { value: Value, ip: nat, stack: Seq<Value>, objects: Seq<Seq<u8>> },
    Fault { error: RuntimeError, ip: nat, stack: Seq<Value>, objects: Seq<Seq<u8>> },
    Stuck,
}

/// A three-byte big-endian operand.
pub open spec fn big_index(h: u8, m: u8, l: u8) -> int {
    h * 0x10000 + m * 0x100 + l
}

/// The meaning of running a chunk from instruction pointer `ip` with the
/// given operand stack and object registry. One step per opcode: constant
/// loads push the addressed pool entry — under the arena design an
/// object-handle constant already denotes a registered object, so loading
/// it registers nothing anew; Negate and Not rewrite the top in place; the
/// binary operators pop the right then the left operand — both consumed
/// even on a fault — and push the result; Return ends the run with the
/// popped top of stack; running off the end of the code ends the run with
/// Number zero. Faults carry the source line of their instruction.
pub open spec fn model_run(m: ChunkModel, ip: nat, stack: Seq<Value>, objects: Seq<Seq<u8>>)
    -> RunModel
    decreases m.code.len() - ip,
{
    if ip >= m.code.len() {
        RunModel::Done { value: Value::Number(0), ip, stack, objects }
    } else {
        let line = line_at_spec(m.lines, ip as int);
        match decode_byte(m.code[ip as int]) {
            None => RunModel::Stuck,
            Some(op) => match op {
                OpCode::Return => {
                    if stack.len() == 0 {
                        RunModel::Stuck
                    } else {
                        RunModel::Done {
                            value: stack.last(),
                            ip: ip + 1,
                            stack: stack.drop_last(),
                            objects,
                        }
                    }
                },
                OpCode::Constant => {
                    if ip + 2 > m.code.len() {
                        RunModel::Stuck
                    } else {
                        let idx = m.code[ip as int + 1] as int;
                        if idx >= m.constants.len() {
                            RunModel::Stuck
                        } else {
                            model_run(m, ip + 2, stack.push(m.constants[idx]), objects)
                        }
                    }
                },
                OpCode::ConstantLong => {
                    if ip + 4 > m.code.len() {
                        RunModel::Stuck
                    } else {
                        let idx = big_index(m.code[ip as int + 1], m.code[ip as int + 2], m.code[ip as int + 3]);
                        if idx >= m.constants.len() {
                            RunModel::Stuck
                        } else {
                            model_run(m, ip + 4, stack.push(m.constants[idx]), objects)
                        }
                    }
                },
                OpCode::Negate => {
                    if stack.len() == 0 {
                        RunModel::Stuck
                    } else {
                        match stack.last() {
                            Value::Number(n) => model_run(
                                m,
                                ip + 1,
                                stack.update(stack.len() - 1, Value::Number(neg_bits(n))),
                                objects,
                            ),
                            _ => RunModel::Fault {
                                error: RuntimeError::OperandMustBeNumber(line),
                                ip: ip + 1,
                                stack,
                                objects,
                            },
                        }
                    }
                },
                OpCode::Add => {
                    if stack.len() < 2 {
                        RunModel::Stuck
                    } else {
                        let a = stack[stack.len() - 2];
                        let b = stack.last();
                        let rest = stack.take(stack.len() - 2);
                        match (a, b) {
                            (Value::Number(x), Value::Number(y)) => model_run(
                                m,
                                ip + 1,
                                rest.push(Value::Number(add_bits(x, y))),
                                objects,
                            ),
                            (Value::ObjPtr(pa), Value::ObjPtr(pb)) => {
                                if pa.0 < objects.len() && pb.0 < objects.len() {
                                    model_run(
                                        m,
                                        ip + 1,
                                        rest.push(Value::ObjPtr(ObjPtr(objects.len() as usize))),
                                        objects.push(
                                            objects[pa.0 as int] + objects[pb.0 as int],
                                        ),
                                    )
                                } else {
                                    RunModel::Stuck
                                }
                            },
                            _ => RunModel::Fault {
                                error: RuntimeError::OperandsMustBeNumber(line),
                                ip: ip + 1,
                                stack: rest,
                                objects,
                            },
                        }
                    }
                },
                OpCode::Subtract => {
                    if stack.len() < 2 {
                        RunModel::Stuck
                    } else {
                        let a = stack[stack.len() - 2];
                        let b = stack.last();
                        let rest = stack.take(stack.len() - 2);
                        match (a, b) {
                            (Value::Number(x), Value::Number(y)) => model_run(
                                m,
                                ip + 1,
                                rest.push(Value::Number(sub_bits(x, y))),
                                objects,
                            ),
                            _ => RunModel::Fault {
                                error: RuntimeError::OperandsMustBeNumber(line),
                                ip: ip + 1,
                                stack: rest,
                                objects,
                            },
                        }
                    }
                },
                OpCode::Multiply => {
                    if stack.len() < 2 {
                        RunModel::Stuck
                    } else {
                        let a = stack[stack.len() - 2];
                        let b = stack.last();
                        let rest = stack.take(stack.len() - 2);
                        match (a, b) {
                            (Value::Number(x), Value::Number(y)) => model_run(
                                m,
                                ip + 1,
                                rest.push(Value::Number(mul_bits(x, y))),
                                objects,
                            ),
                            _ => RunModel::Fault {
                                error: RuntimeError::OperandsMustBeNumber(line),
                                ip: ip + 1,
                                stack: rest,
                                objects,
                            },
                        }
                    }
                },
                OpCode::Divide => {
                    if stack.len() < 2 {
                        RunModel::Stuck
                    } else {
                        let a = stack[stack.len() - 2];
                        let b = stack.last();
                        let rest = stack.take(stack.len() - 2);
                        match (a, b) {
                            (Value::Number(x), Value::Number(y)) => model_run(
                                m,
                                ip + 1,
                                rest.push(Value::Number(div_bits(x, y))),
                                objects,
                            ),
                            _ => RunModel::Fault {
                                error: RuntimeError::OperandsMustBeNumber(line),
                                ip: ip + 1,
                                stack: rest,
                                objects,
                            },
                        }
                    }
                },
                OpCode::Nil => model_run(m, ip + 1, stack.push(Value::Nil), objects),
                OpCode::True => model_run(m, ip + 1, stack.push(Value::Boolean(true)), objects),
                OpCode::False => model_run(m, ip + 1, stack.push(Value::Boolean(false)), objects),
                OpCode::Not => {
                    if stack.len() == 0 {
                        RunModel::Stuck
                    } else {
                        model_run(
                            m,
                            ip + 1,
                            stack.update(
                                stack.len() - 1,
                                Value::Boolean(!truthy_spec(stack.last())),
                            ),
                            objects,
                        )
                    }
                },
                OpCode::Equal => {
                    if stack.len() < 2 {
                        RunModel::Stuck
                    } else {
                        let a = stack[stack.len() - 2];
                        let b = stack.last();
                        let rest = stack.take(stack.len() - 2);
                        model_run(m, ip + 1, rest.push(Value::Boolean(value_equal(a, b))), objects)
                    }
                },
                OpCode::Greater => {
                    if stack.len() < 2 {
                        RunModel::Stuck
                    } else {
                        let a = stack[stack.len() - 2];
                        let b = stack.last();
                        let rest = stack.take(stack.len() - 2);
                        match (a, b) {
                            (Value::Number(x), Value::Number(y)) => model_run(
                                m,
                                ip + 1,
                                rest.push(Value::Boolean(gt_bits(x, y))),
                                objects,
                            ),
                            _ => RunModel::Fault {
                                error: RuntimeError::OperandsMustBeNumber(line),
                                ip: ip + 1,
                                stack: rest,
                                objects,
                            },
                        }
                    }
                },
                OpCode::Less => {
                    if stack.len() < 2 {
                        RunModel::Stuck
                    } else {
                        let a = stack[stack.len() - 2];
                        let b = stack.last();
                        let rest = stack.take(stack.len() - 2);
                        match (a, b) {
                            (Value::Number(x), Value::Number(y)) => model_run(
                                m,
                                ip + 1,
                                rest.push(Value::Boolean(lt_bits(x, y))),
                                objects,
                            ),
                            _ => RunModel::Fault {
                                error: RuntimeError::OperandsMustBeNumber(line),
                                ip: ip + 1,
                                stack: rest,
                                objects,
                            },
                        }
                    }
                },
            },
        }
    }
}

/// The virtual machine: an instruction pointer into the bound chunk, the
/// operand stack, the registry of heap objects this machine owns,
/// addressed by ObjPtr handles, and the sink the debug trace goes to.
#[derive(Debug)]
pub struct VM {
    pub ip: usize,
    pub stack: Vec<Value>,
    pub objects: Vec<Obj>,
    pub trace: Vec<String>,
}

/// Renders the operand stack for the debug trace, bottom first.
fn render_stack(stack: &Vec<Value>) -> (r: String)
    ensures
        r@.len() >= 8,
{
    let mut out = String::new();
    out.append("stack: [");
    proof {
        reveal_strlit("stack: [");
    }
    let mut k: usize = 0;
    while k < stack.len()
        invariant
            out@.len() >= 8,
        decreases stack@.len() - k,
    {
        if k > 0 {
            out.append(", ");
        }
        let value_text = stack[k].debug_text();
        out.append(value_text.as_str());
        k = k + 1;
    }
    out.append("]");
    out
}

proof fn lemma_objects_view_push(objs: Seq<Obj>, o: Obj)
    ensures
        objects_view(objs.push(o)) == objects_view(objs).push(o@),
{
    assert(objects_view(objs.push(o)) =~= objects_view(objs).push(o@));
}

impl VM {
    pub fn new() -> (r: Self)
        ensures
            r.ip == 0,
            r.stack@ == Seq::<Value>::empty(),
            r.objects@ == Seq::<Obj>::empty(),
            r.trace@ == Seq::<String>::empty(),
    {
        VM { ip: 0, stack: Vec::with_capacity(256), objects: Vec::new(), trace: Vec::new() }
    }

    /// Clears the operand stack, recovering from a runtime fault; the
    /// instruction pointer and the object registry stay.
    pub fn reset_stack(&mut self)
        ensures
            final(self).stack@ == Seq::<Value>::empty(),
            final(self).ip == old(self).ip,
            final(self).objects@ == old(self).objects@,
    {
        self.stack.clear();
    }

    /// Registers an object in this machine's registry and hands back its
    /// handle: the freshly taken index.
    pub fn register(&mut self, obj: Obj) -> (r: ObjPtr)
        ensures
            r == ObjPtr(old(self).objects@.len() as usize),
            final(self).objects@ == old(self).objects@.push(obj),
            final(self).ip == old(self).ip,
            final(self).stack@ == old(self).stack@,
    {
        let ptr = ObjPtr(self.objects.len());
        self.objects.push(obj);
        ptr
    }

    fn read_byte(&mut self, chunk: &Chunk) -> (r: u8)
        requires
            old(self).ip < chunk@.code.len(),
        ensures
            r == chunk@.code[old(self).ip as int],
            final(self).ip == old(self).ip + 1,
            final(self).stack@ == old(self).stack@,
            final(self).objects@ == old(self).objects@,
    {
        let n = chunk.code.len();
        proof {
            assert(self.ip < n);
        }
        let b = chunk.code[self.ip];
        self.ip = self.ip + 1;
        b
    }

    fn read_constant(&mut self, chunk: &Chunk) -> (r: Value)
        requires
            old(self).ip < chunk@.code.len(),
            chunk@.code[old(self).ip as int] < chunk@.constants.len(),
        ensures
            r == chunk@.constants[chunk@.code[old(self).ip as int] as int],
            final(self).ip == old(self).ip + 1,
            final(self).stack@ == old(self).stack@,
            final(self).objects@ == old(self).objects@,
    {
        let idx = self.read_byte(chunk);
        chunk.constants[idx as usize]
    }

    fn read_constant_long(&mut self, chunk: &Chunk) -> (r: Value)
        requires
            old(self).ip + 3 <= chunk@.code.len(),
            big_index(
                chunk@.code[old(self).ip as int],
                chunk@.code[old(self).ip as int + 1],
                chunk@.code[old(self).ip as int + 2],
            ) < chunk@.constants.len(),
        ensures
            r == chunk@.constants[big_index(
                chunk@.code[old(self).ip as int],
                chunk@.code[old(self).ip as int + 1],
                chunk@.code[old(self).ip as int + 2],
            )],
            final(self).ip == old(self).ip + 3,
            final(self).stack@ == old(self).stack@,
            final(self).objects@ == old(self).objects@,
    {
        let h = self.read_byte(chunk);
        let mid = self.read_byte(chunk);
        let l = self.read_byte(chunk);
        let idx: usize = (h as usize) * 0x10000 + (mid as usize) * 0x100 + (l as usize);
        chunk.constants[idx]
    }

    fn pop_unsafe(stack: &mut Vec<Value>) -> (r: Value)
        requires
            old(stack)@.len() > 0,
        ensures
            r == old(stack)@.last(),
            final(stack)@ == old(stack)@.drop_last(),
    {
        match stack.pop() {
            Some(v) => v,
            None => unreached(),
        }
    }

    fn pop_twice_unsafe(stack: &mut Vec<Value>) -> (r: (Value, Value))
        requires
            old(stack)@.len() >= 2,
        ensures
            r.0 == old(stack)@[old(stack)@.len() - 2],
            r.1 == old(stack)@.last(),
            final(stack)@ == old(stack)@.take(old(stack)@.len() - 2),
    {
        let b = Self::pop_unsafe(stack);
        let a = Self::pop_unsafe(stack);
        proof {
            assert(old(stack)@.drop_last().drop_last() =~= old(stack)@.take(
                old(stack)@.len() - 2,
            ));
        }
        (a, b)
    }

    /// The fetch-decode-execute loop, total over every starting state: runs
    /// the chunk from this machine's instruction pointer until a Return
    /// yields the popped top of stack, the code ends and yields Number zero,
    /// or an instruction signals a runtime fault; its outcome and the
    /// machine's final state are exactly what `model_run` assigns to the
    /// starting state. On an internal invariant violation — a stack
    /// underflow, a byte outside the opcode range, a truncated operand, an
    /// index out of range, none of which code from the generator shows — it
    /// stops and answers None, a channel apart from the runtime faults.
    #[verifier::rlimit(100)]
    pub fn run_checked(&mut self, chunk: &Chunk, debug: bool) -> (r: Option<
        Result<Value, RuntimeError>,
    >)
        requires
            chunk_wf(chunk@),
        ensures
            match model_run(
                chunk@,
                old(self).ip as nat,
                old(self).stack@,
                objects_view(old(self).objects@),
            ) {
                RunModel::Done { value, ip, stack, objects } => {
                    &&& r == Some(Ok::<Value, RuntimeError>(value))
                    &&& final(self).ip == ip
                    &&& final(self).stack@ == stack
                    &&& objects_view(final(self).objects@) == objects
                },
                RunModel::Fault { error, ip, stack, objects } => {
                    &&& r == Some(Err::<Value, RuntimeError>(error))
                    &&& final(self).ip == ip
                    &&& final(self).stack@ == stack
                    &&& objects_view(final(self).objects@) == objects
                },
                RunModel::Stuck => r == None::<Result<Value, RuntimeError>>,
            },
    {
        let ghost m = chunk@;
        let ghost target = model_run(
            m,
            old(self).ip as nat,
            old(self).stack@,
            objects_view(old(self).objects@),
        );
        while self.ip < chunk.code.len()
            invariant
                chunk_wf(chunk@),
                m == chunk@,
                target == model_run(
                    m,
                    old(self).ip as nat,
                    old(self).stack@,
                    objects_view(old(self).objects@),
                ),
                target == model_run(m, self.ip as nat, self.stack@, objects_view(self.objects@)),
            decreases m.code.len() - self.ip,
        {
            let ghost ip0 = self.ip as nat;
            let ghost st0 = self.stack@;
            let ghost ob0 = objects_view(self.objects@);
            if debug {
                let stack_line = render_stack(&self.stack);
                self.trace.push(stack_line);
                let mut instruction_line = String::new();
                match chunk.disassemble_instruction(self.ip, &mut instruction_line) {
                    Some(_) => {
                        self.trace.push(instruction_line);
                    },
                    None => {
                        proof {
                            assert(false);
                        }
                    },
                }
            }
            let op_offset = self.ip;
            let byte = self.read_byte(chunk);
            let op = match OpCode::decode(byte) {
                Some(op) => op,
                None => {
                    proof {
                        assert(target == RunModel::Stuck);
                    }
                    return None;
                },
            };
            match op {
                OpCode::Return => {
                    if self.stack.len() == 0 {
                        proof {
                            assert(target == RunModel::Stuck);
                        }
                        return None;
                    }
                    let ret = Self::pop_unsafe(&mut self.stack);
                    proof {
                        assert(target == RunModel::Done {
                            value: st0.last(),
                            ip: ip0 + 1,
                            stack: st0.drop_last(),
                            objects: ob0,
                        });
                        assert(ret == st0.last());
                        assert(self.ip as nat == ip0 + 1);
                        assert(self.stack@ == st0.drop_last());
                        assert(objects_view(self.objects@) == ob0);
                        assert(match target {
                            RunModel::Done { value, ip, stack, objects } => {
                                &&& Ok::<Value, RuntimeError>(ret) == Ok::<
                                    Value,
                                    RuntimeError,
                                >(value)
                                &&& self.ip as nat == ip
                                &&& self.stack@ == stack
                                &&& objects_view(self.objects@) == objects
                            },
                            _ => false,
                        });
                    }
                    return Some(Ok(ret));
                },
                OpCode::Constant => {
                    if self.ip >= chunk.code.len() {
                        proof {
                            assert(target == RunModel::Stuck);
                        }
                        return None;
                    }
                    if (chunk.code[self.ip] as usize) >= chunk.constants.len() {
                        proof {
                            assert(target == RunModel::Stuck);
                        }
                        return None;
                    }
                    let constant = self.read_constant(chunk);
                    self.stack.push(constant);
                },
                OpCode::ConstantLong => {
                    if chunk.code.len() - self.ip < 3 {
                        proof {
                            assert(target == RunModel::Stuck);
                        }
                        return None;
                    }
                    if (chunk.code[self.ip] as usize) * 0x10000 + (chunk.code[self.ip + 1]
                        as usize) * 0x100 + (chunk.code[self.ip + 2] as usize)
                        >= chunk.constants.len() {
                        proof {
                            assert(target == RunModel::Stuck);
                        }
                        return None;
                    }
                    proof {
                        assert(big_index(
                            m.code[ip0 as int + 1],
                            m.code[ip0 as int + 2],
                            m.code[ip0 as int + 3],
                        ) < m.constants.len());
                    }
                    let constant = self.read_constant_long(chunk);
                    self.stack.push(constant);
                },
                OpCode::Negate => {
                    if self.stack.len() == 0 {
                        proof {
                            assert(target == RunModel::Stuck);
                        }
                        return None;
                    }
                    let top = self.stack.len() - 1;
                    let last = self.stack[top];
                    match last {
                        Value::Number(n) => {
                            self.stack.set(top, Value::Number(double_neg(n)));
                        },
                        _ => {
                            let line = chunk.get_line(op_offset);
                            proof {
                                assert(target == RunModel::Fault {
                                    error: RuntimeError::OperandMustBeNumber(line),
                                    ip: ip0 + 1,
                                    stack: st0,
                                    objects: ob0,
                                });
                                assert(match target {
                                    RunModel::Fault { error, ip, stack, objects } => {
                                        &&& Err::<Value, RuntimeError>(
                                            RuntimeError::OperandMustBeNumber(line),
                                        ) == Err::<Value, RuntimeError>(error)
                                        &&& self.ip as nat == ip
                                        &&& self.stack@ == stack
                                        &&& objects_view(self.objects@) == objects
                                    },
                                    _ => false,
                                });
                            }
                            return Some(Err(RuntimeError::OperandMustBeNumber(line)));
                        },
                    }
                },
                OpCode::Add => {
                    if self.stack.len() < 2 {
                        proof {
                            assert(target == RunModel::Stuck);
                        }
                        return None;
                    }
                    let (a, b) = Self::pop_twice_unsafe(&mut self.stack);
                    match (a, b) {
                        (Value::Number(x), Value::Number(y)) => {
                            self.stack.push(Value::Number(double_add(x, y)));
                        },
                        (Value::ObjPtr(pa), Value::ObjPtr(pb)) => {
                            if pa.0 >= self.objects.len() || pb.0 >= self.objects.len() {
                                proof {
                                    assert(target == RunModel::Stuck);
                                }
                                return None;
                            }
                            let ghost objs0 = self.objects@;
                            let concat = concat_bytes(
                                self.objects[pa.0].into_string(),
                                self.objects[pb.0].into_string(),
                            );
                            let ghost catv = concat@;
                            let ptr = self.register(Obj::String(concat));
                            self.stack.push(Value::ObjPtr(ptr));
                            proof {
                                lemma_objects_view_push(objs0, self.objects@.last());
                                assert(self.objects@.last()@ == catv);
                                assert(objects_view(self.objects@) == objects_view(
                                    objs0,
                                ).push(catv));
                                assert(catv == ob0[pa.0 as int] + ob0[pb.0 as int]);
                            }
                        },
                        _ => {
                            let line = chunk.get_line(op_offset);
                            proof {
                                assert(target == RunModel::Fault {
                                    error: RuntimeError::OperandsMustBeNumber(line),
                                    ip: ip0 + 1,
                                    stack: st0.take(st0.len() - 2),
                                    objects: ob0,
                                });
                                assert(match target {
                                    RunModel::Fault { error, ip, stack, objects } => {
                                        &&& Err::<Value, RuntimeError>(
                                            RuntimeError::OperandsMustBeNumber(line),
                                        ) == Err::<Value, RuntimeError>(error)
                                        &&& self.ip as nat == ip
                                        &&& self.stack@ == stack
                                        &&& objects_view(self.objects@) == objects
                                    },
                                    _ => false,
                                });
                            }
                            return Some(Err(RuntimeError::OperandsMustBeNumber(line)));
                        },
                    }
                },
                OpCode::Subtract => {
                    if self.stack.len() < 2 {
                        proof {
                            assert(target == RunModel::Stuck);
                        }
                        return None;
                    }
                    let (a, b) = Self::pop_twice_unsafe(&mut self.stack);
                    match (a, b) {
                        (Value::Number(x), Value::Number(y)) => {
                            self.stack.push(Value::Number(double_sub(x, y)));
                        },
                        _ => {
                            let line = chunk.get_line(op_offset);
                            proof {
                                assert(target == RunModel::Fault {
                                    error: RuntimeError::OperandsMustBeNumber(line),
                                    ip: ip0 + 1,
                                    stack: st0.take(st0.len() - 2),
                                    objects: ob0,
                                });
                                assert(match target {
                                    RunModel::Fault { error, ip, stack, objects } => {
                                        &&& Err::<Value, RuntimeError>(
                                            RuntimeError::OperandsMustBeNumber(line),
                                        ) == Err::<Value, RuntimeError>(error)
                                        &&& self.ip as nat == ip
                                        &&& self.stack@ == stack
                                        &&& objects_view(self.objects@) == objects
                                    },
                                    _ => false,
                                });
                            }
                            return Some(Err(RuntimeError::OperandsMustBeNumber(line)));
                        },
                    }
                },
                OpCode::Multiply => {
                    if self.stack.len() < 2 {
                        proof {
                            assert(target == RunModel::Stuck);
                        }
                        return None;
                    }
                    let (a, b) = Self::pop_twice_unsafe(&mut self.stack);
                    match (a, b) {
                        (Value::Number(x), Value::Number(y)) => {
                            self.stack.push(Value::Number(double_mul(x, y)));
                        },
                        _ => {
                            let line = chunk.get_line(op_offset);
                            proof {
                                assert(target == RunModel::Fault {
                                    error: RuntimeError::OperandsMustBeNumber(line),
                                    ip: ip0 + 1,
                                    stack: st0.take(st0.len() - 2),
                                    objects: ob0,
                                });
                                assert(match target {
                                    RunModel::Fault { error, ip, stack, objects } => {
                                        &&& Err::<Value, RuntimeError>(
                                            RuntimeError::OperandsMustBeNumber(line),
                                        ) == Err::<Value, RuntimeError>(error)
                                        &&& self.ip as nat == ip
                                        &&& self.stack@ == stack
                                        &&& objects_view(self.objects@) == objects
                                    },
                                    _ => false,
                                });
                            }
                            return Some(Err(RuntimeError::OperandsMustBeNumber(line)));
                        },
                    }
                },
                OpCode::Divide => {
                    if self.stack.len() < 2 {
                        proof {
                            assert(target == RunModel::Stuck);
                        }
                        return None;
                    }
                    let (a, b) = Self::pop_twice_unsafe(&mut self.stack);
                    match (a, b) {
                        (Value::Number(x), Value::Number(y)) => {
                            self.stack.push(Value::Number(double_div(x, y)));
                        },
                        _ => {
                            let line = chunk.get_line(op_offset);
                            proof {
                                assert(target == RunModel::Fault {
                                    error: RuntimeError::OperandsMustBeNumber(line),
                                    ip: ip0 + 1,
                                    stack: st0.take(st0.len() - 2),
                                    objects: ob0,
                                });
                                assert(match target {
                                    RunModel::Fault { error, ip, stack, objects } => {
                                        &&& Err::<Value, RuntimeError>(
                                            RuntimeError::OperandsMustBeNumber(line),
                                        ) == Err::<Value, RuntimeError>(error)
                                        &&& self.ip as nat == ip
                                        &&& self.stack@ == stack
                                        &&& objects_view(self.objects@) == objects
                                    },
                                    _ => false,
                                });
                            }
                            return Some(Err(RuntimeError::OperandsMustBeNumber(line)));
                        },
                    }
                },
                OpCode::Nil => {
                    self.stack.push(Value::Nil);
                },
                OpCode::True => {
                    self.stack.push(Value::Boolean(true));
                },
                OpCode::False => {
                    self.stack.push(Value::Boolean(false));
                },
                OpCode::Not => {
                    if self.stack.len() == 0 {
                        proof {
                            assert(target == RunModel::Stuck);
                        }
                        return None;
                    }
                    let top = self.stack.len() - 1;
                    let last = self.stack[top];
                    let truthiness = last.truthy();
                    self.stack.set(top, Value::Boolean(!truthiness));
                },
                OpCode::Equal => {
                    if self.stack.len() < 2 {
                        proof {
                            assert(target == RunModel::Stuck);
                        }
                        return None;
                    }
                    let (a, b) = Self::pop_twice_unsafe(&mut self.stack);
                    let eq = a.equals(&b);
                    self.stack.push(Value::Boolean(eq));
                },
                OpCode::Greater => {
                    if self.stack.len() < 2 {
                        proof {
                            assert(target == RunModel::Stuck);
                        }
                        return None;
                    }
                    let (a, b) = Self::pop_twice_unsafe(&mut self.stack);
                    match (a, b) {
                        (Value::Number(x), Value::Number(y)) => {
                            self.stack.push(Value::Boolean(double_gt(x, y)));
                        },
                        _ => {
                            let line = chunk.get_line(op_offset);
                            proof {
                                assert(target == RunModel::Fault {
                                    error: RuntimeError::OperandsMustBeNumber(line),
                                    ip: ip0 + 1,
                                    stack: st0.take(st0.len() - 2),
                                    objects: ob0,
                                });
                                assert(match target {
                                    RunModel::Fault { error, ip, stack, objects } => {
                                        &&& Err::<Value, RuntimeError>(
                                            RuntimeError::OperandsMustBeNumber(line),
                                        ) == Err::<Value, RuntimeError>(error)
                                        &&& self.ip as nat == ip
                                        &&& self.stack@ == stack
                                        &&& objects_view(self.objects@) == objects
                                    },
                                    _ => false,
                                });
                            }
                            return Some(Err(RuntimeError::OperandsMustBeNumber(line)));
                        },
                    }
                },
                OpCode::Less => {
                    if self.stack.len() < 2 {
                        proof {
                            assert(target == RunModel::Stuck);
                        }
                        return None;
                    }
                    let (a, b) = Self::pop_twice_unsafe(&mut self.stack);
                    match (a, b) {
                        (Value::Number(x), Value::Number(y)) => {
                            self.stack.push(Value::Boolean(double_lt(x, y)));
                        },
                        _ => {
                            let line = chunk.get_line(op_offset);
                            proof {
                                assert(target == RunModel::Fault {
                                    error: RuntimeError::OperandsMustBeNumber(line),
                                    ip: ip0 + 1,
                                    stack: st0.take(st0.len() - 2),
                                    objects: ob0,
                                });
                                assert(match target {
                                    RunModel::Fault { error, ip, stack, objects } => {
                                        &&& Err::<Value, RuntimeError>(
                                            RuntimeError::OperandsMustBeNumber(line),
                                        ) == Err::<Value, RuntimeError>(error)
                                        &&& self.ip as nat == ip
                                        &&& self.stack@ == stack
                                        &&& objects_view(self.objects@) == objects
                                    },
                                    _ => false,
                                });
                            }
                            return Some(Err(RuntimeError::OperandsMustBeNumber(line)));
                        },
                    }
                },
            }
            proof {
                assert(target == model_run(
                    m,
                    self.ip as nat,
                    self.stack@,
                    objects_view(self.objects@),
                ));
            }
        }
        proof {
            assert(target == RunModel::Done {
                value: Value::Number(0),
                ip: self.ip as nat,
                stack: self.stack@,
                objects: objects_view(self.objects@),
            });
            assert(match target {
                RunModel::Done { value, ip, stack, objects } => {
                    &&& Ok::<Value, RuntimeError>(Value::Number(0)) == Ok::<
                        Value,
                        RuntimeError,
                    >(value)
                    &&& self.ip as nat == ip
                    &&& self.stack@ == stack
                    &&& objects_view(self.objects@) == objects
                },
                _ => false,
            });
        }
        Some(Ok(Value::Number(0)))
    }

    /// The fetch-decode-execute loop as the code generator's clients use
    /// it: the caller keeps the machine off internal invariant violations,
    /// as any chunk the generator produced does, and gets the value or the
    /// runtime fault.
    pub fn run_bytecode(&mut self, chunk: &Chunk, debug: bool) -> (r: Result<Value, RuntimeError>)
        requires
            chunk_wf(chunk@),
            !(model_run(
                chunk@,
                old(self).ip as nat,
                old(self).stack@,
                objects_view(old(self).objects@),
            ) is Stuck),
        ensures
            match model_run(
                chunk@,
                old(self).ip as nat,
                old(self).stack@,
                objects_view(old(self).objects@),
            ) {
                RunModel::Done { value, ip, stack, objects } => {
                    &&& r == Ok::<Value, RuntimeError>(value)
                    &&& final(self).ip == ip
                    &&& final(self).stack@ == stack
                    &&& objects_view(final(self).objects@) == objects
                },
                RunModel::Fault { error, ip, stack, objects } => {
                    &&& r == Err::<Value, RuntimeError>(error)
                    &&& final(self).ip == ip
                    &&& final(self).stack@ == stack
                    &&& objects_view(final(self).objects@) == objects
                },
                RunModel::Stuck => false,
            },
    {
        match self.run_checked(chunk, debug) {
            Some(result) => result,
            None => unreached(),
        }
    }

    /// One whole compile-and-run cycle of an interactive session: scans and
    /// parses the source, generates its code at the end of the chunk — the
    /// machine's instruction pointer already stands there — and runs it.
    /// Faults of any stage come back under their own variant; on a value or
    /// a runtime fault the outcome and the machine's final state are
    /// exactly what `model_run` assigns to the code the chunk now ends
    /// with.
    pub fn run(&mut self, source: &str, chunk: &mut Chunk, debug: bool) -> (r: Result<
        Value,
        InterpretError,
    >)
        requires
            chunk_wf(old(chunk)@),
            old(self).ip == old(chunk)@.code.len(),
            source.spec_bytes().len() < usize::MAX,
        ensures
            chunk_wf(final(chunk)@),
            chunk_extends(old(chunk)@, final(chunk)@),
            (match scan_from(source.spec_bytes(), 0, 1) {
                Err(e) => r == Err::<Value, InterpretError>(InterpretError::Scan(e)),
                Ok(_) => !(r matches Err(InterpretError::Scan(_))),
            }),
            (r matches Ok(v) ==> model_run(
                final(chunk)@,
                old(chunk)@.code.len() as nat,
                old(self).stack@,
                objects_view(old(self).objects@),
            ) == (RunModel::Done {
                value: v,
                ip: final(self).ip as nat,
                stack: final(self).stack@,
                objects: objects_view(final(self).objects@),
            })),
            (match r {
                Err(InterpretError::Scan(_)) => {
                    &&& final(chunk)@ == old(chunk)@
                    &&& final(self).ip == old(self).ip
                    &&& final(self).stack@ == old(self).stack@
                    &&& final(self).objects@ == old(self).objects@
                },
                Err(InterpretError::Parse(_)) => {
                    &&& final(chunk)@ == old(chunk)@
                    &&& final(self).ip == old(self).ip
                    &&& final(self).stack@ == old(self).stack@
                    &&& final(self).objects@ == old(self).objects@
                },
                Err(InterpretError::Runtime(e)) => model_run(
                    final(chunk)@,
                    old(chunk)@.code.len() as nat,
                    old(self).stack@,
                    objects_view(old(self).objects@),
                ) == (RunModel::Fault {
                    error: e,
                    ip: final(self).ip as nat,
                    stack: final(self).stack@,
                    objects: objects_view(final(self).objects@),
                }),
                _ => true,
            }),
    {
        proof {
            lemma_extends_refl_vm(chunk@);
        }
        let tokens = match scan(source.as_bytes()) {
            Ok(t) => t,
            Err(e) => {
                return Err(InterpretError::Scan(e));
            },
        };
        proof {
            lemma_scan_from_wf(source.spec_bytes(), 0, 1);
            let ts = tokens_view(tokens@);
            assert(tokens@.len() == ts.len());
            assert(tokens@.last().token_type == ts.last().token_type);
            assert forall|k: int|
                0 <= k < tokens@.len() - 1 implies (#[trigger] tokens@[k]).token_type
                != crate::token_type::TokenType::Eof by {
                assert(ts[k] == tokens@[k]@);
                assert(ts[k].token_type != crate::token_type::TokenType::Eof);
            }
            assert(tokens_wf(tokens@));
        }
        let (expr, _rest) = match parse_expression(tokens.as_slice(), 0) {
            Ok(p) => p,
            Err(e) => {
                return Err(InterpretError::Parse(e));
            },
        };
        match compile(&expr, chunk) {
            Ok(()) => {},
            Err(e) => {
                return Err(InterpretError::Compile(e));
            },
        }
        proof {
            lemma_compile_model_extends(expr, old(chunk)@);
            lemma_compile_ok_compilable(expr, old(chunk)@);
            lemma_compile_run_correct(
                expr,
                old(chunk)@,
                chunk@,
                self.stack@,
                objects_view(self.objects@),
            );
        }
        match self.run_checked(chunk, debug) {
            Some(Ok(v)) => Ok(v),
            Some(Err(e)) => Err(InterpretError::Runtime(e)),
            None => unreached(),
        }
    }
}

proof fn lemma_extends_refl_vm(a: ChunkModel)
    ensures
        chunk_extends(a, a),
{
    assert(a.code =~= a.code.subrange(0, a.code.len() as int));
    assert(a.constants =~= a.constants.subrange(0, a.constants.len() as int));
}

/// The byte-wise concatenation of two byte strings.
fn concat_bytes(a: &Vec<u8>, b: &Vec<u8>) -> (r: Vec<u8>)
    ensures
        r@ == a@ + b@,
{
    let mut r: Vec<u8> = Vec::new();
    proof {
        assert(a@.take(0) =~= Seq::<u8>::empty());
    }
    let mut i: usize = 0;
    while i < a.len()
        invariant
            0 <= i <= a@.len(),
            r@ == a@.take(i as int),
        decreases a@.len() - i,
    {
        r.push(a[i]);
        proof {
            assert(a@.take(i + 1) =~= a@.take(i as int).push(a@[i as int]));
        }
        i = i + 1;
    }
    proof {
        assert(b@.take(0) =~= Seq::<u8>::empty());
        assert(a@.take(a@.len() as int) + b@.take(0) =~= a@.take(a@.len() as int));
    }
    let mut j: usize = 0;
    while j < b.len()
        invariant
            0 <= j <= b@.len(),
            r@ == a@.take(a@.len() as int) + b@.take(j as int),
        decreases b@.len() - j,
    {
        r.push(b[j]);
        proof {
            assert(b@.take(j + 1) =~= b@.take(j as int).push(b@[j as int]));
            assert((a@.take(a@.len() as int) + b@.take(j as int)).push(b@[j as int]) =~= a@.take(
                a@.len() as int,
            ) + b@.take(j + 1));
        }
        j = j + 1;
    }
    proof {
        assert(a@.take(a@.len() as int) =~= a@);
        assert(b@.take(b@.len() as int) =~= b@);
        assert(r@ =~= a@ + b@);
    }
    r
}

} // verus!
