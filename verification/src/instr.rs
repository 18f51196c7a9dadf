//! Structured Hack instructions and their rendering as assembly text.
//!
//! The generator works over [`Instr`], a closed enumeration of exactly the
//! instruction forms the translation emits. [`render_code`] is the
//! specification of the emitted text, one line per instruction;
//! [`render_program`] produces it.

use vstd::prelude::*;

verus! {

/// A named Hack register symbol used in an address instruction.
#[derive(Debug, PartialEq, Eq, Structural, Copy, Clone)]
pub enum Reg {
    /// `SP`: the stack-top pointer, RAM address 0.
    Sp,
    /// `LCL`: base of the `local` segment, RAM address 1.
    Lcl,
    /// `ARG`: base of the `argument` segment, RAM address 2.
    Arg,
    /// `THIS`: base of the `this` segment, RAM address 3.
    This,
    /// `THAT`: base of the `that` segment, RAM address 4.
    That,
    /// `Rn`: the general-purpose register symbols, RAM address `n`.
    R(u16),
}

/// One Hack instruction, restricted to the forms the translation emits.
///
/// `AtFalse(n)` / `AtContinue(n)` load the address of the matching label
/// declaration `LabelFalse(n)` / `LabelContinue(n)`; the pair is minted per
/// comparison with a unique suffix `n`.
#[derive(Debug, PartialEq, Eq, Structural, Copy, Clone)]
pub enum Instr {
    /// `@n`: load the constant `n` into A.
    At(u16),
    /// `@SP`, `@LCL`, ...: load a register's address into A.
    AtReg(Reg),
    /// `@FALSEn`: load the address of `(FALSEn)` into A.
    AtFalse(u32),
    /// `@CONTINUEn`: load the address of `(CONTINUEn)` into A.
    AtContinue(u32),
    /// `(FALSEn)`: declares the false-branch target of a comparison.
    LabelFalse(u32),
    /// `(CONTINUEn)`: declares the merge point after a comparison.
    LabelContinue(u32),
    /// `D=A`
    DeqA,
    /// `D=M`
    DeqM,
    /// `D=0`
    Deq0,
    /// `M=D`
    MeqD,
    /// `M=0`
    Meq0,
    /// `M=-1`
    MeqNeg1,
    /// `A=M`
    AeqM,
    /// `A=A-1`
    AeqAminus1,
    /// `A=M-1`
    AeqMminus1,
    /// `A=D+A`
    AeqDplusA,
    /// `D=D+A`
    DeqDplusA,
    /// `AM=M-1`
    AMeqMminus1,
    /// `M=M+1`
    MeqMplus1,
    /// `M=M+D`
    MeqMplusD,
    /// `M=M-D`
    MeqMminusD,
    /// `M=M&D`
    MeqMandD,
    /// `M=M|D`
    MeqMorD,
    /// `M=!M`
    MeqNotM,
    /// `M=D-M`
    MeqDminusM,
    /// `D=M-D`
    DeqMminusD,
    /// `D;JNE`
    JneD,
    /// `D;JGE`
    JgeD,
    /// `D;JLE`
    JleD,
    /// `0;JMP`
    Jmp,
}

/// The character for one decimal digit value.
pub open spec fn digit_char(d: nat) -> char {
    if d == 0 {
        '0'
    } else if d == 1 {
        '1'
    } else if d == 2 {
        '2'
    } else if d == 3 {
        '3'
    } else if d == 4 {
        '4'
    } else if d == 5 {
        '5'
    } else if d == 6 {
        '6'
    } else if d == 7 {
        '7'
    } else if d == 8 {
        '8'
    } else {
        '9'
    }
}

/// The decimal rendering of `n`, without leading zeros (except for `n == 0`).
pub open spec fn dec_str(n: nat) -> Seq<char>
    decreases n,
{
    if n < 10 {
        seq![digit_char(n)]
    } else {
        dec_str(n / 10).push(digit_char(n % 10))
    }
}

/// A decimal rendering holds at least one character.
proof fn lemma_dec_str_len(n: nat)
    ensures
        dec_str(n).len() >= 1,
    decreases n,
{
    if n >= 10 {
        lemma_dec_str_len(n / 10);
    }
}

/// Digit characters determine their digits.
proof fn lemma_digit_char_inj(a: nat, b: nat)
    requires
        a < 10,
        b < 10,
        digit_char(a) == digit_char(b),
    ensures
        a == b,
{
}

/// Decimal renderings determine their numbers.
pub proof fn lemma_dec_str_injective(a: nat, b: nat)
    requires
        dec_str(a) == dec_str(b),
    ensures
        a == b,
    decreases a,
{
    lemma_dec_str_len(a);
    lemma_dec_str_len(b);
    if a < 10 && b < 10 {
        assert(dec_str(a)[0] == digit_char(a));
        assert(dec_str(b)[0] == digit_char(b));
        lemma_digit_char_inj(a, b);
    } else if a < 10 {
        lemma_dec_str_len(b / 10);
        assert(dec_str(b).len() >= 2);
    } else if b < 10 {
        lemma_dec_str_len(a / 10);
        assert(dec_str(a).len() >= 2);
    } else {
        assert(dec_str(a).last() == digit_char(a % 10));
        assert(dec_str(b).last() == digit_char(b % 10));
        lemma_digit_char_inj(a % 10, b % 10);
        assert(dec_str(a).drop_last() =~= dec_str(a / 10));
        assert(dec_str(b).drop_last() =~= dec_str(b / 10));
        lemma_dec_str_injective(a / 10, b / 10);
    }
}

/// The symbol a named register renders as.
pub open spec fn reg_name(r: Reg) -> Seq<char> {
    match r {
        Reg::Sp => "SP"@,
        Reg::Lcl => "LCL"@,
        Reg::Arg => "ARG"@,
        Reg::This => "THIS"@,
        Reg::That => "THAT"@,
        Reg::R(n) => "R"@ + dec_str(n as nat),
    }
}

/// The text of one instruction, terminated by a newline.
pub open spec fn render_instr(i: Instr) -> Seq<char> {
    match i {
        Instr::At(n) => "@"@ + dec_str(n as nat) + "\n"@,
        Instr::AtReg(r) => "@"@ + reg_name(r) + "\n"@,
        Instr::AtFalse(n) => "@FALSE"@ + dec_str(n as nat) + "\n"@,
        Instr::AtContinue(n) => "@CONTINUE"@ + dec_str(n as nat) + "\n"@,
        Instr::LabelFalse(n) => "(FALSE"@ + dec_str(n as nat) + ")\n"@,
        Instr::LabelContinue(n) => "(CONTINUE"@ + dec_str(n as nat) + ")\n"@,
        Instr::DeqA => "D=A\n"@,
        Instr::DeqM => "D=M\n"@,
        Instr::Deq0 => "D=0\n"@,
        Instr::MeqD => "M=D\n"@,
        Instr::Meq0 => "M=0\n"@,
        Instr::MeqNeg1 => "M=-1\n"@,
        Instr::AeqM => "A=M\n"@,
        Instr::AeqAminus1 => "A=A-1\n"@,
        Instr::AeqMminus1 => "A=M-1\n"@,
        Instr::AeqDplusA => "A=D+A\n"@,
        Instr::DeqDplusA => "D=D+A\n"@,
        Instr::AMeqMminus1 => "AM=M-1\n"@,
        Instr::MeqMplus1 => "M=M+1\n"@,
        Instr::MeqMplusD => "M=M+D\n"@,
        Instr::MeqMminusD => "M=M-D\n"@,
        Instr::MeqMandD => "M=M&D\n"@,
        Instr::MeqMorD => "M=M|D\n"@,
        Instr::MeqNotM => "M=!M\n"@,
        Instr::MeqDminusM => "M=D-M\n"@,
        Instr::DeqMminusD => "D=M-D\n"@,
        Instr::JneD => "D;JNE\n"@,
        Instr::JgeD => "D;JGE\n"@,
        Instr::JleD => "D;JLE\n"@,
        Instr::Jmp => "0;JMP\n"@,
    }
}

/// The text of an instruction sequence: each instruction's line in order.
pub open spec fn render_code(code: Seq<Instr>) -> Seq<char>
    decreases code.len(),
{
    if code.len() == 0 {
        Seq::empty()
    } else {
        render_instr(code[0]) + render_code(code.drop_first())
    }
}

/// Appends the decimal rendering of `n` to `out`.
pub fn append_dec(out: &mut String, n: u64)
    ensures
        final(out)@ == old(out)@ + dec_str(n as nat),
    decreases n,
{
    if n >= 10 {
        append_dec(out, n / 10);
    }
    let d = n % 10;
    match d {
        0 => out.append("0"),
        1 => out.append("1"),
        2 => out.append("2"),
        3 => out.append("3"),
        4 => out.append("4"),
        5 => out.append("5"),
        6 => out.append("6"),
        7 => out.append("7"),
        8 => out.append("8"),
        _ => out.append("9"),
    }
    proof {
        reveal_strlit("0");
        reveal_strlit("1");
        reveal_strlit("2");
        reveal_strlit("3");
        reveal_strlit("4");
        reveal_strlit("5");
        reveal_strlit("6");
        reveal_strlit("7");
        reveal_strlit("8");
        reveal_strlit("9");
        if n < 10 {
            assert(final(out)@ =~= old(out)@ + dec_str(n as nat));
        } else {
            assert(final(out)@ =~= old(out)@ + dec_str(n as nat));
        }
    }
}

/// Appends the text of one instruction to `out`.
pub fn append_instr(out: &mut String, i: Instr)
    ensures
        final(out)@ == old(out)@ + render_instr(i),
{
    match i {
        Instr::At(n) => {
            out.append("@");
            append_dec(out, n as u64);
            out.append("\n");
            proof {
                assert(final(out)@ =~= old(out)@ + render_instr(i));
            }
        },
        Instr::AtReg(r) => {
            out.append("@");
            match r {
                Reg::Sp => out.append("SP"),
                Reg::Lcl => out.append("LCL"),
                Reg::Arg => out.append("ARG"),
                Reg::This => out.append("THIS"),
                Reg::That => out.append("THAT"),
                Reg::R(n) => {
                    out.append("R");
                    append_dec(out, n as u64);
                },
            }
            out.append("\n");
            proof {
                assert(final(out)@ =~= old(out)@ + render_instr(i));
            }
        },
        Instr::AtFalse(n) => {
            out.append("@FALSE");
            append_dec(out, n as u64);
            out.append("\n");
            proof {
                assert(final(out)@ =~= old(out)@ + render_instr(i));
            }
        },
        Instr::AtContinue(n) => {
            out.append("@CONTINUE");
            append_dec(out, n as u64);
            out.append("\n");
            proof {
                assert(final(out)@ =~= old(out)@ + render_instr(i));
            }
        },
        Instr::LabelFalse(n) => {
            out.append("(FALSE");
            append_dec(out, n as u64);
            out.append(")\n");
            proof {
                assert(final(out)@ =~= old(out)@ + render_instr(i));
            }
        },
        Instr::LabelContinue(n) => {
            out.append("(CONTINUE");
            append_dec(out, n as u64);
            out.append(")\n");
            proof {
                assert(final(out)@ =~= old(out)@ + render_instr(i));
            }
        },
        Instr::DeqA => out.append("D=A\n"),
        Instr::DeqM => out.append("D=M\n"),
        Instr::Deq0 => out.append("D=0\n"),
        Instr::MeqD => out.append("M=D\n"),
        Instr::Meq0 => out.append("M=0\n"),
        Instr::MeqNeg1 => out.append("M=-1\n"),
        Instr::AeqM => out.append("A=M\n"),
        Instr::AeqAminus1 => out.append("A=A-1\n"),
        Instr::AeqMminus1 => out.append("A=M-1\n"),
        Instr::AeqDplusA => out.append("A=D+A\n"),
        Instr::DeqDplusA => out.append("D=D+A\n"),
        Instr::AMeqMminus1 => out.append("AM=M-1\n"),
        Instr::MeqMplus1 => out.append("M=M+1\n"),
        Instr::MeqMplusD => out.append("M=M+D\n"),
        Instr::MeqMminusD => out.append("M=M-D\n"),
        Instr::MeqMandD => out.append("M=M&D\n"),
        Instr::MeqMorD => out.append("M=M|D\n"),
        Instr::MeqNotM => out.append("M=!M\n"),
        Instr::MeqDminusM => out.append("M=D-M\n"),
        Instr::DeqMminusD => out.append("D=M-D\n"),
        Instr::JneD => out.append("D;JNE\n"),
        Instr::JgeD => out.append("D;JGE\n"),
        Instr::JleD => out.append("D;JLE\n"),
        Instr::Jmp => out.append("0;JMP\n"),
    }
}

/// Renders an instruction sequence as assembly text, one line per instruction.
pub fn render_program(code: &Vec<Instr>) -> (r: String)
    ensures
        r@ == render_code(code@),
{
    let mut out = String::new();
    let mut i: usize = 0;
    proof {
        assert(code@.skip(0) =~= code@);
        assert(out@ + render_code(code@) =~= render_code(code@));
    }
    while i < code.len()
        invariant
            i <= code.len(),
            out@ + render_code(code@.skip(i as int)) == render_code(code@),
        decreases code.len() - i,
    {
        proof {
            assert(code@.skip(i as int).drop_first() =~= code@.skip(i as int + 1));
            assert(code@.skip(i as int)[0] == code@[i as int]);
        }
        append_instr(&mut out, code[i]);
        i += 1;
        proof {
            assert(out@ + render_code(code@.skip(i as int)) =~= render_code(code@));
        }
    }
    proof {
        assert(code@.skip(code@.len() as int) =~= Seq::<Instr>::empty());
        assert(out@ =~= render_code(code@));
    }
    out
}

} // verus!
