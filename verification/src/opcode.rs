use vstd::prelude::*;

verus! {

/// The instruction set: one byte per opcode, in the numbering the bytecode
/// uses (Return is 0, Constant 1, and so on in declaration order). Constant
/// takes one operand byte; ConstantLong takes three, big-endian; every
/// other opcode takes none.
#[derive(Debug, Clone, Copy, PartialEq, Eq, Structural)]
pub enum OpCode {
    Return,
    Constant,
    ConstantLong,
    Negate,
    Add,
    Subtract,
    Multiply,
    Divide,
    Nil,
    True,
    False,
    Not,
    Equal,
    Greater,
    Less,
}

/// The byte that encodes an opcode.
pub open spec fn opcode_byte(op: OpCode) -> u8 {
    match op {
        OpCode::Return => 0,
        OpCode::Constant => 1,
        OpCode::ConstantLong => 2,
        OpCode::Negate => 3,
        OpCode::Add => 4,
        OpCode::Subtract => 5,
        OpCode::Multiply => 6,
        OpCode::Divide => 7,
        OpCode::Nil => 8,
        OpCode::True => 9,
        OpCode::False => 10,
        OpCode::Not => 11,
        OpCode::Equal => 12,
        OpCode::Greater => 13,
        OpCode::Less => 14,
    }
}

/// Total, checked decoding: the opcode a byte encodes, or None for a byte
/// outside the enumerated range.
pub open spec fn decode_byte(b: u8) -> Option<OpCode> {
    if b == 0 {
        Some(OpCode::Return)
    } else if b == 1 {
        Some(OpCode::Constant)
    } else if b == 2 {
        Some(OpCode::ConstantLong)
    } else if b == 3 {
        Some(OpCode::Negate)
    } else if b == 4 {
        Some(OpCode::Add)
    } else if b == 5 {
        Some(OpCode::Subtract)
    } else if b == 6 {
        Some(OpCode::Multiply)
    } else if b == 7 {
        Some(OpCode::Divide)
    } else if b == 8 {
        Some(OpCode::Nil)
    } else if b == 9 {
        Some(OpCode::True)
    } else if b == 10 {
        Some(OpCode::False)
    } else if b == 11 {
        Some(OpCode::Not)
    } else if b == 12 {
        Some(OpCode::Equal)
    } else if b == 13 {
        Some(OpCode::Greater)
    } else if b == 14 {
        Some(OpCode::Less)
    } else {
        None
    }
}

impl OpCode {
    pub fn as_byte(self) -> (r: u8)
        ensures
            r == opcode_byte(self),
    {
        match self {
            OpCode::Return => 0,
            OpCode::Constant => 1,
            OpCode::ConstantLong => 2,
            OpCode::Negate => 3,
            OpCode::Add => 4,
            OpCode::Subtract => 5,
            OpCode::Multiply => 6,
            OpCode::Divide => 7,
            OpCode::Nil => 8,
            OpCode::True => 9,
            OpCode::False => 10,
            OpCode::Not => 11,
            OpCode::Equal => 12,
            OpCode::Greater => 13,
            OpCode::Less => 14,
        }
    }

    pub fn decode(b: u8) -> (r: Option<OpCode>)
        ensures
            r == decode_byte(b),
    {
        if b == 0 {
            Some(OpCode::Return)
        } else if b == 1 {
            Some(OpCode::Constant)
        } else if b == 2 {
            Some(OpCode::ConstantLong)
        } else if b == 3 {
            Some(OpCode::Negate)
        } else if b == 4 {
            Some(OpCode::Add)
        } else if b == 5 {
            Some(OpCode::Subtract)
        } else if b == 6 {
            Some(OpCode::Multiply)
        } else if b == 7 {
            Some(OpCode::Divide)
        } else if b == 8 {
            Some(OpCode::Nil)
        } else if b == 9 {
            Some(OpCode::True)
        } else if b == 10 {
            Some(OpCode::False)
        } else if b == 11 {
            Some(OpCode::Not)
        } else if b == 12 {
            Some(OpCode::Equal)
        } else if b == 13 {
            Some(OpCode::Greater)
        } else if b == 14 {
            Some(OpCode::Less)
        } else {
            None
        }
    }

    /// The mnemonic the disassembler prints for the opcode.
    pub fn mnemonic(self) -> (r: &'static str)
        ensures
            r@ == mnemonic_spec(self),
    {
        match self {
            OpCode::Return => "OP_RETURN",
            OpCode::Constant => "OP_CONSTANT",
            OpCode::ConstantLong => "OP_CONSTANT_LONG",
            OpCode::Negate => "OP_NEGATE",
            OpCode::Add => "OP_ADD",
            OpCode::Subtract => "OP_SUBTRACT",
            OpCode::Multiply => "OP_MULTIPLY",
            OpCode::Divide => "OP_DIVIDE",
            OpCode::Nil => "OP_NIL",
            OpCode::True => "OP_TRUE",
            OpCode::False => "OP_FALSE",
            OpCode::Not => "OP_NOT",
            OpCode::Equal => "OP_EQUAL",
            OpCode::Greater => "OP_GREATER",
            OpCode::Less => "OP_LESS",
        }
    }
}

/// The mnemonic of each opcode, as a character sequence.
pub open spec fn mnemonic_spec(op: OpCode) -> Seq<char> {
    match op {
        OpCode::Return => "OP_RETURN"@,
        OpCode::Constant => "OP_CONSTANT"@,
        OpCode::ConstantLong => "OP_CONSTANT_LONG"@,
        OpCode::Negate => "OP_NEGATE"@,
        OpCode::Add => "OP_ADD"@,
        OpCode::Subtract => "OP_SUBTRACT"@,
        OpCode::Multiply => "OP_MULTIPLY"@,
        OpCode::Divide => "OP_DIVIDE"@,
        OpCode::Nil => "OP_NIL"@,
        OpCode::True => "OP_TRUE"@,
        OpCode::False => "OP_FALSE"@,
        OpCode::Not => "OP_NOT"@,
        OpCode::Equal => "OP_EQUAL"@,
        OpCode::Greater => "OP_GREATER"@,
        OpCode::Less => "OP_LESS"@,
    }
}

/// Decoding inverts encoding: every opcode's byte decodes back to it.
pub proof fn lemma_decode_encode(op: OpCode)
    ensures
        decode_byte(opcode_byte(op)) == Some(op),
{
}

} // verus!
