use vstd::prelude::*;

verus! {

/// A fault of the scanner: a byte no token starts with, with the line it
/// stood on.
#[derive(Debug, Clone, Copy, PartialEq, Eq, Structural)]
pub enum ScanError {
    UnexpectedChar(u8, usize),
    UnterminatedString(usize),
}

} // verus!
