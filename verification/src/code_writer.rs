//! The code generator: one stack-machine command to one Hack instruction block.
//!
//! Every command expands into the fixed, parameterized instruction sequence
//! given by the spec functions [`push_code`], [`pop_code`] and [`arith_code`];
//! the generator is proved to return exactly those sequences. Comparison
//! operators mint a pair of branch labels suffixed by the writer's jump
//! counter, which increases by one per comparison and is never reused.

use vstd::prelude::*;

use crate::cmd_type::CmdType;
use crate::instr::{render_code, render_program, Instr, Reg};
use crate::strutil::str_eq;

verus! {

/// Why a command cannot be translated. Translation of the enclosing file
/// aborts; no partial instruction text is emitted for the command.
#[derive(Debug, PartialEq, Eq, Structural, Copy, Clone)]
pub enum TranslateError {
    /// A push/pop segment name outside the closed segment set
    /// (`constant` as a pop target falls under this too).
    InvalidSegment,
    /// An operator name that is none of the ten arithmetic-logic operators.
    InvalidOperation,
}

/// The index bound a segment admits: the largest immediate the expansion
/// synthesizes (the index itself, `5 + index` for `temp`, `16 + index` for
/// `static`) must fit a 15-bit A-instruction constant.
pub open spec fn index_ok(seg: Seq<char>, idx: int) -> bool {
    &&& 0 <= idx
    &&& if seg == "static"@ {
        idx + 16 < 0x8000
    } else if seg == "temp"@ {
        idx + 5 < 0x8000
    } else {
        idx < 0x8000
    }
}

/// The A-instruction that addresses a segment, and whether the segment is
/// direct (the resolved register/cell itself is the target) or indirect (the
/// register holds a base to which the index is added). `None` for a name
/// outside the closed segment set handled here (`constant` and `temp` have
/// their own expansions).
pub open spec fn seg_target(seg: Seq<char>, idx: int) -> Option<(Instr, bool)> {
    if seg == "local"@ {
        Some((Instr::AtReg(Reg::Lcl), false))
    } else if seg == "argument"@ {
        Some((Instr::AtReg(Reg::Arg), false))
    } else if seg == "this"@ {
        Some((Instr::AtReg(Reg::This), false))
    } else if seg == "that"@ {
        Some((Instr::AtReg(Reg::That), false))
    } else if seg == "pointer"@ {
        Some(
            (
                Instr::AtReg(
                    if idx == 0 {
                        Reg::This
                    } else {
                        Reg::That
                    },
                ),
                true,
            ),
        )
    } else if seg == "static"@ {
        Some((Instr::At((16 + idx) as u16), true))
    } else {
        None
    }
}

/// `push constant idx`: load the immediate, then store-and-increment.
pub open spec fn push_constant_code(idx: int) -> Seq<Instr> {
    seq![
        Instr::At(idx as u16),
        Instr::DeqA,
        Instr::AtReg(Reg::Sp),
        Instr::AeqM,
        Instr::MeqD,
        Instr::AtReg(Reg::Sp),
        Instr::MeqMplus1,
    ]
}

/// `push temp idx`: read the fixed register `R(5+idx)`, then
/// store-and-increment.
pub open spec fn push_temp_code(idx: int) -> Seq<Instr> {
    seq![
        Instr::AtReg(Reg::R((5 + idx) as u16)),
        Instr::DeqM,
        Instr::AtReg(Reg::Sp),
        Instr::AeqM,
        Instr::MeqD,
        Instr::AtReg(Reg::Sp),
        Instr::MeqMplus1,
    ]
}

/// Push from a direct segment: read the resolved cell, then
/// store-and-increment.
pub open spec fn push_direct_code(seg_at: Instr) -> Seq<Instr> {
    seq![
        seg_at,
        Instr::DeqM,
        Instr::AtReg(Reg::Sp),
        Instr::AeqM,
        Instr::MeqD,
        Instr::AtReg(Reg::Sp),
        Instr::MeqMplus1,
    ]
}

/// Push from an indirect segment: read the cell at base + idx, then
/// store-and-increment.
pub open spec fn push_indirect_code(seg_at: Instr, idx: int) -> Seq<Instr> {
    seq![
        seg_at,
        Instr::DeqM,
        Instr::At(idx as u16),
        Instr::AeqDplusA,
        Instr::DeqM,
        Instr::AtReg(Reg::Sp),
        Instr::AeqM,
        Instr::MeqD,
        Instr::AtReg(Reg::Sp),
        Instr::MeqMplus1,
    ]
}

/// The expansion of `push seg idx`, or `None` for an unrecognized segment.
pub open spec fn push_code(seg: Seq<char>, idx: int) -> Option<Seq<Instr>> {
    if seg == "constant"@ {
        Some(push_constant_code(idx))
    } else if seg == "temp"@ {
        Some(push_temp_code(idx))
    } else {
        match seg_target(seg, idx) {
            Some((at, true)) => Some(push_direct_code(at)),
            Some((at, false)) => Some(push_indirect_code(at, idx)),
            None => None,
        }
    }
}

/// `pop temp idx`: decrement the stack pointer, read the popped value, store
/// it in the fixed register `R(5+idx)`.
pub open spec fn pop_temp_code(idx: int) -> Seq<Instr> {
    seq![
        Instr::AtReg(Reg::Sp),
        Instr::AMeqMminus1,
        Instr::DeqM,
        Instr::AtReg(Reg::R((5 + idx) as u16)),
        Instr::MeqD,
    ]
}

/// Pop to a direct segment: stash the resolved address in the scratch
/// register `R13`, then decrement, read and store.
pub open spec fn pop_direct_code(seg_at: Instr) -> Seq<Instr> {
    seq![
        seg_at,
        Instr::DeqA,
        Instr::AtReg(Reg::R(13)),
        Instr::MeqD,
        Instr::AtReg(Reg::Sp),
        Instr::AMeqMminus1,
        Instr::DeqM,
        Instr::AtReg(Reg::R(13)),
        Instr::AeqM,
        Instr::MeqD,
    ]
}

/// Pop to an indirect segment: compute base + idx into `R13`, then decrement,
/// read and store.
pub open spec fn pop_indirect_code(seg_at: Instr, idx: int) -> Seq<Instr> {
    seq![
        seg_at,
        Instr::DeqM,
        Instr::At(idx as u16),
        Instr::DeqDplusA,
        Instr::AtReg(Reg::R(13)),
        Instr::MeqD,
        Instr::AtReg(Reg::Sp),
        Instr::AMeqMminus1,
        Instr::DeqM,
        Instr::AtReg(Reg::R(13)),
        Instr::AeqM,
        Instr::MeqD,
    ]
}

/// The expansion of `pop seg idx`, or `None` for an unrecognized segment
/// (`constant` included: it is no pop target).
pub open spec fn pop_code(seg: Seq<char>, idx: int) -> Option<Seq<Instr>> {
    if seg == "temp"@ {
        Some(pop_temp_code(idx))
    } else {
        match seg_target(seg, idx) {
            Some((at, true)) => Some(pop_direct_code(at)),
            Some((at, false)) => Some(pop_indirect_code(at, idx)),
            None => None,
        }
    }
}

/// A binary operation: pop the first operand into D, then combine it in place
/// with the new top value by `op_instr`.
pub open spec fn binary_code(op_instr: Instr) -> Seq<Instr> {
    seq![
        Instr::AtReg(Reg::Sp),
        Instr::AMeqMminus1,
        Instr::DeqM,
        Instr::AeqAminus1,
        op_instr,
    ]
}

/// `not`: complement the top value in place.
pub open spec fn not_code() -> Seq<Instr> {
    seq![Instr::AtReg(Reg::Sp), Instr::AeqMminus1, Instr::MeqNotM]
}

/// `neg`: replace the top value v by 0 - v in place.
pub open spec fn neg_code() -> Seq<Instr> {
    seq![Instr::Deq0, Instr::AtReg(Reg::Sp), Instr::AeqMminus1, Instr::MeqDminusM]
}

/// A comparison: pop the first operand, compute second - first against the
/// new top, branch on `jump` to the false label, write all-bits-set (true) or
/// 0 (false) at the top, and merge. Both labels carry the suffix `n`.
pub open spec fn cmp_code(jump: Instr, n: u32) -> Seq<Instr> {
    seq![
        Instr::AtReg(Reg::Sp),
        Instr::AMeqMminus1,
        Instr::DeqM,
        Instr::AeqAminus1,
        Instr::DeqMminusD,
        Instr::AtFalse(n),
        jump,
        Instr::AtReg(Reg::Sp),
        Instr::AeqMminus1,
        Instr::MeqNeg1,
        Instr::AtContinue(n),
        Instr::Jmp,
        Instr::LabelFalse(n),
        Instr::AtReg(Reg::Sp),
        Instr::AeqMminus1,
        Instr::Meq0,
        Instr::LabelContinue(n),
    ]
}

/// Whether an operator is one of the three comparisons.
pub open spec fn is_comparison(op: Seq<char>) -> bool {
    op == "eq"@ || op == "lt"@ || op == "gt"@
}

/// The jump that sends a comparison to its false branch: the branch is taken
/// when the comparison fails.
pub open spec fn jump_of(op: Seq<char>) -> Instr {
    if op == "gt"@ {
        Instr::JleD
    } else if op == "lt"@ {
        Instr::JgeD
    } else {
        Instr::JneD
    }
}

/// The expansion of an arithmetic-logic operator, or `None` for an
/// unrecognized name. A comparison's labels carry the suffix `counter + 1`,
/// where `counter` is the writer's jump counter before the command.
pub open spec fn arith_code(op: Seq<char>, counter: int) -> Option<Seq<Instr>> {
    if op == "add"@ {
        Some(binary_code(Instr::MeqMplusD))
    } else if op == "sub"@ {
        Some(binary_code(Instr::MeqMminusD))
    } else if op == "and"@ {
        Some(binary_code(Instr::MeqMandD))
    } else if op == "or"@ {
        Some(binary_code(Instr::MeqMorD))
    } else if is_comparison(op) {
        Some(cmp_code(jump_of(op), (counter + 1) as u32))
    } else if op == "not"@ {
        Some(not_code())
    } else if op == "neg"@ {
        Some(neg_code())
    } else {
        None
    }
}

/// The stateful translator for one output file: it owns the jump counter that
/// makes the comparison labels of that file unique.
pub struct CodeWriter {
    jump_counter: u32,
}

impl CodeWriter {
    /// The number of comparison expansions emitted so far; the next
    /// comparison's labels carry the suffix `counter + 1`.
    pub closed spec fn counter(&self) -> int {
        self.jump_counter as int
    }

    /// A fresh writer, its jump counter at zero.
    pub fn new() -> (w: CodeWriter)
        ensures
            w.counter() == 0,
    {
        CodeWriter { jump_counter: 0 }
    }

    /// Resolves a segment name to its A-instruction and addressing mode,
    /// exactly as [`seg_target`] says; an unrecognized name is the fatal
    /// [`TranslateError::InvalidSegment`].
    pub fn get_segment_and_direct(&self, segment: &str, index: i32) -> (r: Result<
        (Instr, bool),
        TranslateError,
    >)
        requires
            index_ok(segment@, index as int),
        ensures
            match r {
                Ok(t) => seg_target(segment@, index as int) == Some(t),
                Err(e) => seg_target(segment@, index as int) is None && e
                    == TranslateError::InvalidSegment,
            },
    {
        if str_eq(segment, "local") {
            Ok((Instr::AtReg(Reg::Lcl), false))
        } else if str_eq(segment, "argument") {
            Ok((Instr::AtReg(Reg::Arg), false))
        } else if str_eq(segment, "this") {
            Ok((Instr::AtReg(Reg::This), false))
        } else if str_eq(segment, "that") {
            Ok((Instr::AtReg(Reg::That), false))
        } else if str_eq(segment, "pointer") {
            let reg = if index == 0 {
                Reg::This
            } else {
                Reg::That
            };
            Ok((Instr::AtReg(reg), true))
        } else if str_eq(segment, "static") {
            Ok((Instr::At((16 + index) as u16), true))
        } else {
            Err(TranslateError::InvalidSegment)
        }
    }

    /// The expansion of `push segment index`, exactly [`push_code`];
    /// an unrecognized segment aborts with no instructions emitted.
    pub fn write_push(&self, segment: &str, value: i32) -> (r: Result<Vec<Instr>, TranslateError>)
        requires
            index_ok(segment@, value as int),
        ensures
            match r {
                Ok(code) => push_code(segment@, value as int) == Some(code@),
                Err(e) => push_code(segment@, value as int) is None && e
                    == TranslateError::InvalidSegment,
            },
    {
        if str_eq(segment, "constant") {
            let code = vec![
                Instr::At(value as u16),
                Instr::DeqA,
                Instr::AtReg(Reg::Sp),
                Instr::AeqM,
                Instr::MeqD,
                Instr::AtReg(Reg::Sp),
                Instr::MeqMplus1,
            ];
            proof {
                assert(code@ =~= push_constant_code(value as int));
            }
            Ok(code)
        } else if str_eq(segment, "temp") {
            let code = vec![
                Instr::AtReg(Reg::R((5 + value) as u16)),
                Instr::DeqM,
                Instr::AtReg(Reg::Sp),
                Instr::AeqM,
                Instr::MeqD,
                Instr::AtReg(Reg::Sp),
                Instr::MeqMplus1,
            ];
            proof {
                assert(code@ =~= push_temp_code(value as int));
            }
            Ok(code)
        } else {
            match self.get_segment_and_direct(segment, value) {
                Ok((seg_at, true)) => {
                    let code = vec![
                        seg_at,
                        Instr::DeqM,
                        Instr::AtReg(Reg::Sp),
                        Instr::AeqM,
                        Instr::MeqD,
                        Instr::AtReg(Reg::Sp),
                        Instr::MeqMplus1,
                    ];
                    proof {
                        assert(code@ =~= push_direct_code(seg_at));
                    }
                    Ok(code)
                },
                Ok((seg_at, false)) => {
                    let code = vec![
                        seg_at,
                        Instr::DeqM,
                        Instr::At(value as u16),
                        Instr::AeqDplusA,
                        Instr::DeqM,
                        Instr::AtReg(Reg::Sp),
                        Instr::AeqM,
                        Instr::MeqD,
                        Instr::AtReg(Reg::Sp),
                        Instr::MeqMplus1,
                    ];
                    proof {
                        assert(code@ =~= push_indirect_code(seg_at, value as int));
                    }
                    Ok(code)
                },
                Err(e) => Err(e),
            }
        }
    }

    /// The expansion of `pop segment index`, exactly [`pop_code`];
    /// an unrecognized segment (or `constant`) aborts with no instructions
    /// emitted.
    pub fn write_pop(&self, segment: &str, value: i32) -> (r: Result<Vec<Instr>, TranslateError>)
        requires
            index_ok(segment@, value as int),
        ensures
            match r {
                Ok(code) => pop_code(segment@, value as int) == Some(code@),
                Err(e) => pop_code(segment@, value as int) is None && e
                    == TranslateError::InvalidSegment,
            },
    {
        if str_eq(segment, "temp") {
            let code = vec![
                Instr::AtReg(Reg::Sp),
                Instr::AMeqMminus1,
                Instr::DeqM,
                Instr::AtReg(Reg::R((5 + value) as u16)),
                Instr::MeqD,
            ];
            proof {
                assert(code@ =~= pop_temp_code(value as int));
            }
            Ok(code)
        } else {
            match self.get_segment_and_direct(segment, value) {
                Ok((seg_at, true)) => {
                    let code = vec![
                        seg_at,
                        Instr::DeqA,
                        Instr::AtReg(Reg::R(13)),
                        Instr::MeqD,
                        Instr::AtReg(Reg::Sp),
                        Instr::AMeqMminus1,
                        Instr::DeqM,
                        Instr::AtReg(Reg::R(13)),
                        Instr::AeqM,
                        Instr::MeqD,
                    ];
                    proof {
                        assert(code@ =~= pop_direct_code(seg_at));
                    }
                    Ok(code)
                },
                Ok((seg_at, false)) => {
                    let code = vec![
                        seg_at,
                        Instr::DeqM,
                        Instr::At(value as u16),
                        Instr::DeqDplusA,
                        Instr::AtReg(Reg::R(13)),
                        Instr::MeqD,
                        Instr::AtReg(Reg::Sp),
                        Instr::AMeqMminus1,
                        Instr::DeqM,
                        Instr::AtReg(Reg::R(13)),
                        Instr::AeqM,
                        Instr::MeqD,
                    ];
                    proof {
                        assert(code@ =~= pop_indirect_code(seg_at, value as int));
                    }
                    Ok(code)
                },
                Err(e) => Err(e),
            }
        }
    }

    /// The expansion of an arithmetic-logic operator, exactly [`arith_code`]
    /// over the writer's counter before the call. A comparison advances the
    /// counter by one; everything else, an unrecognized name included, leaves
    /// it unchanged.
    pub fn write_arithmetic(&mut self, command: &str) -> (r: Result<Vec<Instr>, TranslateError>)
        requires
            old(self).counter() < u32::MAX,
        ensures
            match r {
                Ok(code) => arith_code(command@, old(self).counter()) == Some(code@)
                    && final(self).counter() == if is_comparison(command@) {
                    old(self).counter() + 1
                } else {
                    old(self).counter()
                },
                Err(e) => arith_code(command@, old(self).counter()) is None && e
                    == TranslateError::InvalidOperation
                    && final(self).counter() == old(self).counter(),
            },
    {
        proof {
            reveal_strlit("add");
            reveal_strlit("sub");
            reveal_strlit("and");
            reveal_strlit("or");
            reveal_strlit("eq");
            reveal_strlit("lt");
            reveal_strlit("gt");
            assert("add"@.len() == 3);
            assert("sub"@.len() == 3);
            assert("and"@.len() == 3);
            assert("or"@.len() == 2);
            assert("or"@[0] == 'o');
            assert("eq"@[0] == 'e');
            assert("lt"@[0] == 'l');
            assert("gt"@[0] == 'g');
        }
        if str_eq(command, "add") {
            Ok(self.binary_template(Instr::MeqMplusD))
        } else if str_eq(command, "sub") {
            Ok(self.binary_template(Instr::MeqMminusD))
        } else if str_eq(command, "and") {
            Ok(self.binary_template(Instr::MeqMandD))
        } else if str_eq(command, "or") {
            Ok(self.binary_template(Instr::MeqMorD))
        } else if str_eq(command, "gt") || str_eq(command, "lt") || str_eq(command, "eq") {
            let jump = if str_eq(command, "gt") {
                Instr::JleD
            } else if str_eq(command, "lt") {
                Instr::JgeD
            } else {
                Instr::JneD
            };
            self.jump_counter = self.jump_counter + 1;
            let n = self.jump_counter;
            let code = vec![
                Instr::AtReg(Reg::Sp),
                Instr::AMeqMminus1,
                Instr::DeqM,
                Instr::AeqAminus1,
                Instr::DeqMminusD,
                Instr::AtFalse(n),
                jump,
                Instr::AtReg(Reg::Sp),
                Instr::AeqMminus1,
                Instr::MeqNeg1,
                Instr::AtContinue(n),
                Instr::Jmp,
                Instr::LabelFalse(n),
                Instr::AtReg(Reg::Sp),
                Instr::AeqMminus1,
                Instr::Meq0,
                Instr::LabelContinue(n),
            ];
            proof {
                assert(code@ =~= cmp_code(jump, n));
            }
            Ok(code)
        } else if str_eq(command, "not") {
            let code = vec![Instr::AtReg(Reg::Sp), Instr::AeqMminus1, Instr::MeqNotM];
            proof {
                assert(code@ =~= not_code());
            }
            Ok(code)
        } else if str_eq(command, "neg") {
            let code = vec![
                Instr::Deq0,
                Instr::AtReg(Reg::Sp),
                Instr::AeqMminus1,
                Instr::MeqDminusM,
            ];
            proof {
                assert(code@ =~= neg_code());
            }
            Ok(code)
        } else {
            Err(TranslateError::InvalidOperation)
        }
    }

    /// The shared expansion of the four binary operators: pop into D, then
    /// apply `op_instr` to the remaining top value in place.
    fn binary_template(&self, op_instr: Instr) -> (code: Vec<Instr>)
        ensures
            code@ == binary_code(op_instr),
    {
        let code = vec![
            Instr::AtReg(Reg::Sp),
            Instr::AMeqMminus1,
            Instr::DeqM,
            Instr::AeqAminus1,
            op_instr,
        ];
        proof {
            assert(code@ =~= binary_code(op_instr));
        }
        code
    }

    /// Translates one classified command into its instruction text: the
    /// rendering of the sequence that [`push_code`], [`pop_code`] or
    /// [`arith_code`] gives it. On an error nothing is emitted. Command kinds
    /// outside push/pop/arithmetic are not generated.
    pub fn write_assembly(&mut self, cmd_type: CmdType, arg1: Option<String>, arg2: Option<i32>) -> (r:
        Result<String, TranslateError>)
        requires
            cmd_type == CmdType::CPush || cmd_type == CmdType::CPop || cmd_type
                == CmdType::CArithmetic,
            arg1 is Some,
            cmd_type == CmdType::CPush || cmd_type == CmdType::CPop ==> arg2 is Some && index_ok(
                arg1.unwrap()@,
                arg2.unwrap() as int,
            ),
            old(self).counter() < u32::MAX,
        ensures
            ({
                let code = match cmd_type {
                    CmdType::CPush => push_code(arg1.unwrap()@, arg2.unwrap() as int),
                    CmdType::CPop => pop_code(arg1.unwrap()@, arg2.unwrap() as int),
                    _ => arith_code(arg1.unwrap()@, old(self).counter()),
                };
                match r {
                    Ok(text) => code is Some && text@ == render_code(code.unwrap()),
                    Err(e) => code is None && e == if cmd_type == CmdType::CArithmetic {
                        TranslateError::InvalidOperation
                    } else {
                        TranslateError::InvalidSegment
                    },
                }
            }),
            final(self).counter() == if cmd_type == CmdType::CArithmetic && is_comparison(
                arg1.unwrap()@,
            ) {
                old(self).counter() + 1
            } else {
                old(self).counter()
            },
    {
        let a1 = arg1.unwrap();
        let code = match cmd_type {
            CmdType::CArithmetic => self.write_arithmetic(a1.as_str()),
            CmdType::CPush => self.write_push(a1.as_str(), arg2.unwrap()),
            CmdType::CPop => self.write_pop(a1.as_str(), arg2.unwrap()),
            _ => Err(TranslateError::InvalidOperation),
        };
        match code {
            Ok(instrs) => Ok(render_program(&instrs)),
            Err(e) => Err(e),
        }
    }
}

} // verus!
