//! A translator from a stack-machine command language to Hack assembly.
//!
//! Each stack-machine command (push/pop against a named memory segment, or an
//! arithmetic-logic operation) expands into a fixed, parameterized sequence of
//! Hack instructions. The expansion is modelled twice: as structured
//! instructions with a machine semantics ([`machine`]), and as the literal
//! assembly text ([`instr`]). The code generator ([`code_writer`]) is proved to
//! emit exactly the documented sequences; the semantic laws (push/pop
//! round-trips, branch-label uniqueness) are proved about those sequences.

pub mod cmd_type;
pub mod code_writer;
pub mod instr;
pub mod laws;
pub mod machine;
pub mod parser;
pub mod strutil;
