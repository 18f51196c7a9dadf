//! The closed enumeration of stack-machine command families.

use vstd::prelude::*;

verus! {

/// The family a source command belongs to, determined by its first token.
///
/// Only `CPush`, `CPop` and `CArithmetic` are code-generated; the control-flow
/// and function-call families are recognized by the classifier but lie outside
/// the generator's scope.
#[derive(Debug, PartialEq, Eq, Structural, Hash, Copy, Clone)]
pub enum CmdType {
    CPush,
    CPop,
    CArithmetic,
    CLabel,
    CGoto,
    CIf,
    CFunction,
    CCall,
    CReturn,
}

} // verus!
