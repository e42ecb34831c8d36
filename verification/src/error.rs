use vstd::prelude::*;

use crate::parse_error::ParseError;
use crate::scan_error::ScanError;

verus! {

/// A recoverable execution-time fault, carrying the source line of the
/// instruction that signalled it.
#[derive(Debug, Clone, Copy, PartialEq, Eq, Structural)]
pub enum RuntimeError {
    OperandMustBeNumber(usize),
    OperandsMustBeNumber(usize),
}

/// A fault of the code generator, fatal to the compilation unit.
#[derive(Debug, Clone, Copy, PartialEq, Eq, Structural)]
pub enum CompileError {
    ConstantPoolOverflow,
    UnsupportedExpression,
}

/// Everything one compile-and-run cycle can report: a fault of the
/// scanner, the parser, the code generator or the run itself. Internal
/// invariant violations have no variant here: code from the generator is
/// proved never to reach one.
#[derive(Debug, PartialEq)]
pub enum InterpretError {
    Scan(ScanError),
    Parse(ParseError),
    Compile(CompileError),
    Runtime(RuntimeError),
}

impl RuntimeError {
    /// The diagnostic text of the fault.
    pub fn message(&self) -> (r: &'static str)
        ensures
            self matches RuntimeError::OperandMustBeNumber(_) ==> r@ == "Operand should be number"@,
            self matches RuntimeError::OperandsMustBeNumber(_) ==> r@ == "Operands should be number"@,
    {
        match self {
            RuntimeError::OperandMustBeNumber(_) => "Operand should be number",
            RuntimeError::OperandsMustBeNumber(_) => "Operands should be number",
        }
    }

    /// The source line the fault carries.
    pub fn line(&self) -> (r: usize)
        ensures
            self matches RuntimeError::OperandMustBeNumber(l) ==> r == l,
            self matches RuntimeError::OperandsMustBeNumber(l) ==> r == l,
    {
        match self {
            RuntimeError::OperandMustBeNumber(l) => *l,
            RuntimeError::OperandsMustBeNumber(l) => *l,
        }
    }
}

} // verus!
