//! The library's laws, proved about the generated instruction sequences.
//!
//! The round-trip law: pushing then immediately popping the same indirect
//! (segment, index) pair leaves the segment's stored value and the stack
//! pointer unchanged. The uniqueness law: comparison expansions minted from
//! different jump-counter values share no branch label — structurally and in
//! the rendered text; since [`crate::code_writer::CodeWriter`] raises its
//! counter by one per comparison and never lowers it, no two comparisons of
//! one translation run share one. Beside these stand the effect laws, one per
//! command family, each giving the exact machine state its expansion leaves:
//! pushes advance the stack pointer and place the addressed value on top,
//! pops recede it and store the popped value at the resolved address, the
//! arithmetic-logic operations combine or rewrite the top values in place,
//! and a comparison leaves all-bits-set or zero by its operator's truth.

use vstd::prelude::*;

use crate::code_writer::{
    arith_code, binary_code, cmp_code, is_comparison, jump_of, neg_code, not_code, pop_code,
    pop_direct_code, pop_indirect_code, pop_temp_code, push_code, push_constant_code,
    push_direct_code, push_indirect_code, push_temp_code, seg_target,
};
use crate::instr::{dec_str, lemma_dec_str_injective, render_instr, Instr, Reg};
use crate::machine::{
    as_signed, find_label_from, is_control, jump_taken, lemma_run_step, lemma_run_straight_concat,
    lemma_run_straight_run, lemma_run_straight_step, lemma_wsub_signed, lemma_wsub_zero, reg_addr,
    run, run_straight, step, wadd, wsub, MState,
};

verus! {

/// Whether an instruction declares a branch label.
pub open spec fn is_label(i: Instr) -> bool {
    i is LabelFalse || i is LabelContinue
}

/// Every label declared or loaded in a comparison expansion carries the
/// expansion's own suffix.
pub proof fn lemma_cmp_code_labels(jump: Instr, n: u32)
    requires
        !is_label(jump),
    ensures
        forall|l: Instr|
            cmp_code(jump, n).contains(l) && is_label(l) ==> l == Instr::LabelFalse(n) || l
                == Instr::LabelContinue(n),
{
    let code = cmp_code(jump, n);
    assert forall|l: Instr| code.contains(l) && is_label(l) implies l == Instr::LabelFalse(n) || l
        == Instr::LabelContinue(n) by {
        let i = choose|i: int| 0 <= i < code.len() && code[i] == l;
        assert(code.len() == 17);
        assert(code[12] == Instr::LabelFalse(n));
        assert(code[16] == Instr::LabelContinue(n));
    }
}

/// Uniqueness law: two comparison operators expanded at different points of a
/// run — the writer's counter before the second strictly above its value
/// before the first, as one comparison already lies between them — generate
/// label pairs that never coincide.
pub proof fn lemma_comparison_labels_unique(op1: Seq<char>, op2: Seq<char>, c1: int, c2: int)
    requires
        is_comparison(op1),
        is_comparison(op2),
        0 <= c1 < c2 < u32::MAX,
    ensures
        arith_code(op1, c1) is Some,
        arith_code(op2, c2) is Some,
        forall|l: Instr|
            is_label(l) ==> !(arith_code(op1, c1).unwrap().contains(l) && arith_code(
                op2,
                c2,
            ).unwrap().contains(l)),
{
    reveal_strlit("add");
    reveal_strlit("sub");
    reveal_strlit("and");
    reveal_strlit("or");
    reveal_strlit("eq");
    reveal_strlit("lt");
    reveal_strlit("gt");
    assert("add"@.len() == 3);
    assert("sub"@.len() == 3);
    assert("and"@.len() == 3);
    assert("or"@.len() == 2);
    assert("or"@[0] == 'o');
    assert("eq"@[0] == 'e');
    assert("lt"@[0] == 'l');
    assert("gt"@[0] == 'g');
    assert(arith_code(op1, c1) == Some(cmp_code(jump_of(op1), (c1 + 1) as u32)));
    assert(arith_code(op2, c2) == Some(cmp_code(jump_of(op2), (c2 + 1) as u32)));
    lemma_cmp_code_labels(jump_of(op1), (c1 + 1) as u32);
    lemma_cmp_code_labels(jump_of(op2), (c2 + 1) as u32);
    assert((c1 + 1) as u32 != (c2 + 1) as u32);
}

/// The RAM address of the base register of an indirect segment.
pub open spec fn seg_base(seg: Seq<char>) -> int {
    if seg == "local"@ {
        1
    } else if seg == "argument"@ {
        2
    } else if seg == "this"@ {
        3
    } else {
        4
    }
}

/// The exact effect of an indirect push: the cell at base + idx lands on the
/// stack top and the stack pointer advances by one.
#[verifier::rlimit(100)]
#[verifier::spinoff_prover]
pub proof fn lemma_push_indirect_effect(b: Reg, idx: int, s: MState)
    requires
        s.ram.len() <= 0x10000,
        0 <= idx < 0x8000,
        (reg_addr(b) as int) < s.ram.len(),
        0 < s.ram[0] as int,
        (s.ram[0] as int) < s.ram.len(),
        s.ram[reg_addr(b) as int] + idx < s.ram.len(),
    ensures
        ({
            let sp = s.ram[0] as int;
            let eff = s.ram[reg_addr(b) as int] + idx;
            run_straight(push_indirect_code(Instr::AtReg(b), idx), s) == (MState {
                a: 0,
                d: s.ram[eff],
                ram: s.ram.update(sp, s.ram[eff]).update(0, wadd(s.ram[0], 1)),
            })
        }),
{
    let code = push_indirect_code(Instr::AtReg(b), idx);
    let rb = reg_addr(b) as int;
    let base_val = s.ram[rb];
    let sp = s.ram[0] as int;
    let eff = base_val + idx;
    let r1 = s.ram.update(sp, s.ram[eff]);
    let u1 = MState { a: reg_addr(b), d: s.d, ram: s.ram };
    let u2 = MState { a: reg_addr(b), d: base_val, ram: s.ram };
    let u3 = MState { a: idx as u16, d: base_val, ram: s.ram };
    let u4 = MState { a: eff as u16, d: base_val, ram: s.ram };
    let u5 = MState { a: eff as u16, d: s.ram[eff], ram: s.ram };
    let u6 = MState { a: 0, d: s.ram[eff], ram: s.ram };
    let u7 = MState { a: s.ram[0], d: s.ram[eff], ram: s.ram };
    let u8 = MState { a: s.ram[0], d: s.ram[eff], ram: r1 };
    let u9 = MState { a: 0, d: s.ram[eff], ram: r1 };
    let u10 = MState { a: 0, d: s.ram[eff], ram: r1.update(0, wadd(s.ram[0], 1)) };
    assert(step(code[0], s) == u1);
    assert(step(code[1], u1) == u2);
    assert(step(code[2], u2) == u3);
    assert(wadd(base_val, idx as u16) == eff as u16);
    assert(step(code[3], u3) == u4);
    assert(step(code[4], u4) == u5);
    assert(step(code[5], u5) == u6);
    assert(step(code[6], u6) == u7);
    assert(step(code[7], u7) == u8);
    assert(step(code[8], u8) == u9);
    assert(r1[0] == s.ram[0]);
    assert(step(code[9], u9) == u10);
    assert(code.skip(0) =~= code);
    lemma_run_straight_step(code, s, 0);
    lemma_run_straight_step(code, u1, 1);
    lemma_run_straight_step(code, u2, 2);
    lemma_run_straight_step(code, u3, 3);
    lemma_run_straight_step(code, u4, 4);
    lemma_run_straight_step(code, u5, 5);
    lemma_run_straight_step(code, u6, 6);
    lemma_run_straight_step(code, u7, 7);
    lemma_run_straight_step(code, u8, 8);
    lemma_run_straight_step(code, u9, 9);
    assert(code.skip(10) =~= Seq::<Instr>::empty());
    assert(run_straight(code, s) == u10);
}

/// The exact effect of an indirect pop: the old stack top lands in the cell
/// at base + idx, whose address passes through the scratch register `R13`,
/// and the stack pointer recedes by one.
#[verifier::rlimit(100)]
#[verifier::spinoff_prover]
pub proof fn lemma_pop_indirect_effect(b: Reg, idx: int, s: MState)
    requires
        s.ram.len() <= 0x10000,
        0 <= idx < 0x8000,
        (reg_addr(b) as int) < s.ram.len(),
        13 < s.ram.len(),
        16 <= s.ram[0] as int,
        (s.ram[0] as int) <= s.ram.len(),
        s.ram[reg_addr(b) as int] + idx < s.ram.len(),
    ensures
        ({
            let sp = s.ram[0] as int;
            let eff = s.ram[reg_addr(b) as int] + idx;
            run_straight(pop_indirect_code(Instr::AtReg(b), idx), s) == (MState {
                a: eff as u16,
                d: s.ram[sp - 1],
                ram: s.ram.update(13, eff as u16).update(0, (sp - 1) as u16).update(
                    eff,
                    s.ram[sp - 1],
                ),
            })
        }),
{
    let code = pop_indirect_code(Instr::AtReg(b), idx);
    let rb = reg_addr(b) as int;
    let base_val = s.ram[rb];
    let sp = s.ram[0] as int;
    let eff = base_val + idx;
    let popped = s.ram[sp - 1];
    let r1 = s.ram.update(13, eff as u16);
    let r2 = r1.update(0, (sp - 1) as u16);
    let r3 = r2.update(eff, popped);
    let u1 = MState { a: reg_addr(b), d: s.d, ram: s.ram };
    let u2 = MState { a: reg_addr(b), d: base_val, ram: s.ram };
    let u3 = MState { a: idx as u16, d: base_val, ram: s.ram };
    let u4 = MState { a: idx as u16, d: eff as u16, ram: s.ram };
    let u5 = MState { a: 13, d: eff as u16, ram: s.ram };
    let u6 = MState { a: 13, d: eff as u16, ram: r1 };
    let u7 = MState { a: 0, d: eff as u16, ram: r1 };
    let u8 = MState { a: (sp - 1) as u16, d: eff as u16, ram: r2 };
    let u9 = MState { a: (sp - 1) as u16, d: popped, ram: r2 };
    let u10 = MState { a: 13, d: popped, ram: r2 };
    let u11 = MState { a: eff as u16, d: popped, ram: r2 };
    let u12 = MState { a: eff as u16, d: popped, ram: r3 };
    assert(step(code[0], s) == u1);
    assert(step(code[1], u1) == u2);
    assert(step(code[2], u2) == u3);
    assert(wadd(base_val, idx as u16) == eff as u16);
    assert(step(code[3], u3) == u4);
    assert(step(code[4], u4) == u5);
    assert(step(code[5], u5) == u6);
    assert(step(code[6], u6) == u7);
    assert(r1[0] == s.ram[0]);
    assert(wsub(s.ram[0], 1) == (sp - 1) as u16);
    assert(step(code[7], u7) == u8);
    assert(r2[sp - 1] == popped);
    assert(step(code[8], u8) == u9);
    assert(step(code[9], u9) == u10);
    assert(r2[13] == eff as u16);
    assert(step(code[10], u10) == u11);
    assert(step(code[11], u11) == u12);
    assert(code.skip(0) =~= code);
    lemma_run_straight_step(code, s, 0);
    lemma_run_straight_step(code, u1, 1);
    lemma_run_straight_step(code, u2, 2);
    lemma_run_straight_step(code, u3, 3);
    lemma_run_straight_step(code, u4, 4);
    lemma_run_straight_step(code, u5, 5);
    lemma_run_straight_step(code, u6, 6);
    lemma_run_straight_step(code, u7, 7);
    lemma_run_straight_step(code, u8, 8);
    lemma_run_straight_step(code, u9, 9);
    lemma_run_straight_step(code, u10, 10);
    lemma_run_straight_step(code, u11, 11);
    assert(code.skip(12) =~= Seq::<Instr>::empty());
    assert(run_straight(code, s) == u12);
}

/// Round-trip law: for every valid (segment, index) pair over the four
/// indirect segments, pushing then immediately popping it leaves the
/// segment's stored value and the stack pointer position unchanged — in
/// fact every RAM cell but the scratch register `R13` and the transiently
/// used stack cell is unchanged.
#[verifier::rlimit(100)]
#[verifier::spinoff_prover]
pub proof fn lemma_push_pop_round_trip(seg: Seq<char>, idx: int, s: MState, fuel: nat)
    requires
        seg == "local"@ || seg == "argument"@ || seg == "this"@ || seg == "that"@,
        0 <= idx < 0x8000,
        s.ram.len() <= 0x10000,
        16 <= s.ram[0] as int,
        s.ram[0] as int + 1 < s.ram.len(),
        16 <= s.ram[seg_base(seg)] + idx,
        s.ram[seg_base(seg)] + idx < s.ram.len(),
        s.ram[seg_base(seg)] + idx != s.ram[0] as int,
        fuel >= 22,
    ensures
        push_code(seg, idx) is Some,
        pop_code(seg, idx) is Some,
        ({
            let code = push_code(seg, idx).unwrap() + pop_code(seg, idx).unwrap();
            let s2 = run(code, s, 0, fuel);
            let sp = s.ram[0] as int;
            let eff = s.ram[seg_base(seg)] + idx;
            &&& s2.ram.len() == s.ram.len()
            &&& s2.ram[0] == s.ram[0]
            &&& s2.ram[eff] == s.ram[eff]
            &&& s2.ram[sp] == s.ram[eff]
            &&& s2.ram[13] == eff as u16
            &&& forall|k: int|
                0 <= k < s.ram.len() && k != 13 && k != sp ==> s2.ram[k] == s.ram[k]
        }),
{
    reveal_strlit("local");
    reveal_strlit("argument");
    reveal_strlit("this");
    reveal_strlit("that");
    reveal_strlit("pointer");
    reveal_strlit("static");
    reveal_strlit("constant");
    reveal_strlit("temp");
    assert("local"@.len() == 5);
    assert("argument"@.len() == 8);
    assert("this"@.len() == 4);
    assert("that"@.len() == 4);
    assert("pointer"@.len() == 7);
    assert("static"@.len() == 6);
    assert("constant"@.len() == 8);
    assert("temp"@.len() == 4);
    assert("argument"@[0] == 'a');
    assert("constant"@[0] == 'c');
    assert("this"@[1] == 'h');
    assert("that"@[1] == 'h');
    assert("temp"@[1] == 'e');
    assert("this"@[2] == 'i');
    assert("that"@[2] == 'a');
    let b: Reg = if seg == "local"@ {
        Reg::Lcl
    } else if seg == "argument"@ {
        Reg::Arg
    } else if seg == "this"@ {
        Reg::This
    } else {
        Reg::That
    };
    assert(reg_addr(b) as int == seg_base(seg));
    assert(seg_target(seg, idx) == Some((Instr::AtReg(b), false)));
    let c1 = push_indirect_code(Instr::AtReg(b), idx);
    let c2 = pop_indirect_code(Instr::AtReg(b), idx);
    assert(push_code(seg, idx) == Some(c1));
    assert(pop_code(seg, idx) == Some(c2));
    let code = c1 + c2;
    assert forall|k: int| 0 <= k < code.len() implies !is_control(#[trigger] code[k]) by {
        if k < 10 {
            assert(code[k] == c1[k]);
        } else {
            assert(code[k] == c2[k - 10]);
        }
    }
    lemma_run_straight_run(code, s, 0, fuel);
    assert(code.skip(0) =~= code);
    lemma_run_straight_concat(c1, c2, s);
    lemma_push_indirect_effect(b, idx, s);
    let s1 = run_straight(c1, s);
    lemma_pop_indirect_effect(b, idx, s1);
    let s2 = run_straight(c2, s1);
    let sp = s.ram[0] as int;
    let eff = s.ram[seg_base(seg)] + idx;
    assert(s1.ram[0] as int == sp + 1);
    assert(s1.ram[reg_addr(b) as int] == s.ram[reg_addr(b) as int]);
    assert(s2.ram =~= s.ram.update(sp, s.ram[eff]).update(0, wadd(s.ram[0], 1)).update(
        13,
        eff as u16,
    ).update(0, sp as u16).update(eff, s.ram[eff]));
}


/// The truth value a comparison owes: `eq` compares words, `lt` and `gt`
/// compare them as signed integers, first-pushed against second-pushed.
pub open spec fn cmp_truth(op: Seq<char>, x: u16, y: u16) -> bool {
    if op == "eq"@ {
        x == y
    } else if op == "lt"@ {
        as_signed(x) < as_signed(y)
    } else {
        as_signed(x) > as_signed(y)
    }
}

/// Comparison law: the branch-merge expansion pops its two operands and
/// leaves all-bits-set (true) or zero (false) at the new stack top, by the
/// operator's truth value over them; every other RAM cell is untouched. The
/// signed difference of the operands must not overflow one word — on the
/// overflowing pairs the synthesized single subtraction misjudges `lt` and
/// `gt`, on the target machine as here.
#[verifier::rlimit(100)]
#[verifier::spinoff_prover]
pub proof fn lemma_comparison_effect(op: Seq<char>, n: u32, s: MState, fuel: nat)
    requires
        is_comparison(op),
        s.ram.len() <= 0x10000,
        16 <= s.ram[0] as int,
        (s.ram[0] as int) <= s.ram.len(),
        -0x8000 <= as_signed(s.ram[s.ram[0] as int - 2]) - as_signed(s.ram[s.ram[0] as int - 1]),
        as_signed(s.ram[s.ram[0] as int - 2]) - as_signed(s.ram[s.ram[0] as int - 1]) < 0x8000,
        fuel >= 17,
    ensures
        ({
            let code = cmp_code(jump_of(op), n);
            let s2 = run(code, s, 0, fuel);
            let sp = s.ram[0] as int;
            let x = s.ram[sp - 2];
            let y = s.ram[sp - 1];
            &&& s2.ram.len() == s.ram.len()
            &&& s2.ram[0] as int == sp - 1
            &&& s2.ram[sp - 2] == (if cmp_truth(op, x, y) {
                0xFFFFu16
            } else {
                0u16
            })
            &&& forall|k: int|
                0 <= k < s.ram.len() && k != 0 && k != sp - 2 ==> s2.ram[k] == s.ram[k]
        }),
{
    reveal_strlit("eq");
    reveal_strlit("lt");
    reveal_strlit("gt");
    assert("eq"@[0] == 'e');
    assert("lt"@[0] == 'l');
    assert("gt"@[0] == 'g');
    assert("eq"@.len() == 2);
    assert("lt"@.len() == 2);
    assert("gt"@.len() == 2);
    let j = jump_of(op);
    let code = cmp_code(j, n);
    let sp = s.ram[0] as int;
    let x = s.ram[sp - 2];
    let y = s.ram[sp - 1];
    let d = wsub(x, y);
    lemma_wsub_zero(x, y);
    lemma_wsub_signed(x, y);
    let lf = Instr::LabelFalse(n);
    let lc = Instr::LabelContinue(n);
    assert(code.len() == 17);
    assert(find_label_from(code, lf, 12) == 12);
    assert(find_label_from(code, lf, 11) == 12);
    assert(find_label_from(code, lf, 10) == 12);
    assert(find_label_from(code, lf, 9) == 12);
    assert(find_label_from(code, lf, 8) == 12);
    assert(find_label_from(code, lf, 7) == 12);
    assert(find_label_from(code, lf, 6) == 12);
    assert(find_label_from(code, lf, 5) == 12);
    assert(find_label_from(code, lf, 4) == 12);
    assert(find_label_from(code, lf, 3) == 12);
    assert(find_label_from(code, lf, 2) == 12);
    assert(find_label_from(code, lf, 1) == 12);
    assert(find_label_from(code, lf, 0) == 12);
    assert(find_label_from(code, lc, 16) == 16);
    assert(find_label_from(code, lc, 15) == 16);
    assert(find_label_from(code, lc, 14) == 16);
    assert(find_label_from(code, lc, 13) == 16);
    assert(find_label_from(code, lc, 12) == 16);
    assert(find_label_from(code, lc, 11) == 16);
    assert(find_label_from(code, lc, 10) == 16);
    assert(find_label_from(code, lc, 9) == 16);
    assert(find_label_from(code, lc, 8) == 16);
    assert(find_label_from(code, lc, 7) == 16);
    assert(find_label_from(code, lc, 6) == 16);
    assert(find_label_from(code, lc, 5) == 16);
    assert(find_label_from(code, lc, 4) == 16);
    assert(find_label_from(code, lc, 3) == 16);
    assert(find_label_from(code, lc, 2) == 16);
    assert(find_label_from(code, lc, 1) == 16);
    assert(find_label_from(code, lc, 0) == 16);
    let r1 = s.ram.update(0, (sp - 1) as u16);
    let u1 = MState { a: 0, d: s.d, ram: s.ram };
    let u2 = MState { a: (sp - 1) as u16, d: s.d, ram: r1 };
    let u3 = MState { a: (sp - 1) as u16, d: y, ram: r1 };
    let u4 = MState { a: (sp - 2) as u16, d: y, ram: r1 };
    let u5 = MState { a: (sp - 2) as u16, d: d, ram: r1 };
    let u6 = MState { a: 12, d: d, ram: r1 };
    assert(step(code[0], s) == u1);
    assert(wsub(s.ram[0], 1) == (sp - 1) as u16);
    assert(step(code[1], u1) == u2);
    assert(r1[sp - 1] == y);
    assert(step(code[2], u2) == u3);
    assert(wsub((sp - 1) as u16, 1) == (sp - 2) as u16);
    assert(step(code[3], u3) == u4);
    assert(r1[sp - 2] == x);
    assert(step(code[4], u4) == u5);
    assert(crate::machine::label_addr(code, lf) == 12);
    assert(crate::machine::label_addr(code, lc) == 16);
    lemma_run_step(code, s, 0, fuel);
    lemma_run_step(code, u1, 1, (fuel - 1) as nat);
    lemma_run_step(code, u2, 2, (fuel - 2) as nat);
    lemma_run_step(code, u3, 3, (fuel - 3) as nat);
    lemma_run_step(code, u4, 4, (fuel - 4) as nat);
    assert(run(code, u5, 5, (fuel - 5) as nat) == run(code, u6, 6, (fuel - 6) as nat));
    assert(run(code, s, 0, fuel) == run(code, u6, 6, (fuel - 6) as nat));
    let taken = jump_taken(j, d);
    assert(taken == !cmp_truth(op, x, y));
    if !taken {
        // fall through: write all-bits-set, then jump to the merge label
        let r2 = r1.update(sp - 2, 0xFFFFu16);
        let v7 = MState { a: 0, d: d, ram: r1 };
        let v8 = MState { a: (sp - 2) as u16, d: d, ram: r1 };
        let v9 = MState { a: (sp - 2) as u16, d: d, ram: r2 };
        let v10 = MState { a: 16, d: d, ram: r2 };
        assert(run(code, u6, 6, (fuel - 6) as nat) == run(code, u6, 7, (fuel - 7) as nat));
        assert(step(code[7], u6) == v7);
        assert(r1[0] == (sp - 1) as u16);
        assert(wsub((sp - 1) as u16, 1) == (sp - 2) as u16);
        assert(step(code[8], v7) == v8);
        assert(step(code[9], v8) == v9);
        lemma_run_step(code, u6, 7, (fuel - 7) as nat);
        lemma_run_step(code, v7, 8, (fuel - 8) as nat);
        lemma_run_step(code, v8, 9, (fuel - 9) as nat);
        assert(run(code, v9, 10, (fuel - 10) as nat) == run(code, v10, 11, (fuel - 11) as nat));
        assert(run(code, v10, 11, (fuel - 11) as nat) == run(code, v10, 16, (fuel - 12) as nat));
        assert(run(code, v10, 16, (fuel - 12) as nat) == run(code, v10, 17, (fuel - 13) as nat));
        assert(run(code, v10, 17, (fuel - 13) as nat) == v10);
        assert(run(code, s, 0, fuel) == v10);
        assert(r2[0] == (sp - 1) as u16);
    } else {
        // branch to the false label: write zero
        let r3 = r1.update(sp - 2, 0u16);
        let w7 = MState { a: 0, d: d, ram: r1 };
        let w8 = MState { a: (sp - 2) as u16, d: d, ram: r1 };
        let w9 = MState { a: (sp - 2) as u16, d: d, ram: r3 };
        assert(run(code, u6, 6, (fuel - 6) as nat) == run(code, u6, 12, (fuel - 7) as nat));
        assert(run(code, u6, 12, (fuel - 7) as nat) == run(code, u6, 13, (fuel - 8) as nat));
        assert(step(code[13], u6) == w7);
        assert(r1[0] == (sp - 1) as u16);
        assert(wsub((sp - 1) as u16, 1) == (sp - 2) as u16);
        assert(step(code[14], w7) == w8);
        assert(step(code[15], w8) == w9);
        lemma_run_step(code, u6, 13, (fuel - 8) as nat);
        lemma_run_step(code, w7, 14, (fuel - 9) as nat);
        lemma_run_step(code, w8, 15, (fuel - 10) as nat);
        assert(run(code, w9, 16, (fuel - 11) as nat) == run(code, w9, 17, (fuel - 12) as nat));
        assert(run(code, w9, 17, (fuel - 12) as nat) == w9);
        assert(run(code, s, 0, fuel) == w9);
        assert(r3[0] == (sp - 1) as u16);
    }
}

/// The RAM cell an A-instruction addresses.
pub open spec fn at_target(at: Instr) -> int {
    match at {
        Instr::At(n) => n as int,
        Instr::AtReg(r) => reg_addr(r) as int,
        _ => 0,
    }
}

/// The state after `push constant v`, instruction by instruction.
#[verifier::rlimit(100)]
#[verifier::spinoff_prover]
proof fn lemma_push_constant_straight(v: int, s: MState)
    requires
        0 <= v < 0x8000,
        s.ram.len() <= 0x10000,
        16 <= s.ram[0] as int,
        (s.ram[0] as int) < s.ram.len(),
        s.ram[0] as int + 1 < 0x10000,
    ensures
        ({
            let sp = s.ram[0] as int;
            run_straight(push_constant_code(v), s) == (MState {
                a: 0,
                d: v as u16,
                ram: s.ram.update(sp, v as u16).update(0, (sp + 1) as u16),
            })
        }),
{
    let code = push_constant_code(v);
    let sp = s.ram[0] as int;
    let r1 = s.ram.update(sp, v as u16);
    let u1 = MState { a: v as u16, d: s.d, ram: s.ram };
    let u2 = MState { a: v as u16, d: v as u16, ram: s.ram };
    let u3 = MState { a: 0, d: v as u16, ram: s.ram };
    let u4 = MState { a: s.ram[0], d: v as u16, ram: s.ram };
    let u5 = MState { a: s.ram[0], d: v as u16, ram: r1 };
    let u6 = MState { a: 0, d: v as u16, ram: r1 };
    let u7 = MState { a: 0, d: v as u16, ram: r1.update(0, (sp + 1) as u16) };
    assert(step(code[0], s) == u1);
    assert(step(code[1], u1) == u2);
    assert(step(code[2], u2) == u3);
    assert(step(code[3], u3) == u4);
    assert(step(code[4], u4) == u5);
    assert(step(code[5], u5) == u6);
    assert(r1[0] == s.ram[0]);
    assert(wadd(s.ram[0], 1) == (sp + 1) as u16);
    assert(step(code[6], u6) == u7);
    assert(code.skip(0) =~= code);
    lemma_run_straight_step(code, s, 0);
    lemma_run_straight_step(code, u1, 1);
    lemma_run_straight_step(code, u2, 2);
    lemma_run_straight_step(code, u3, 3);
    lemma_run_straight_step(code, u4, 4);
    lemma_run_straight_step(code, u5, 5);
    lemma_run_straight_step(code, u6, 6);
    assert(code.skip(7) =~= Seq::<Instr>::empty());
}

/// The exact effect of `push constant v`: the immediate lands on the stack
/// top and the stack pointer advances by one.
#[verifier::rlimit(100)]
#[verifier::spinoff_prover]
pub proof fn lemma_push_constant_effect(v: int, s: MState, fuel: nat)
    requires
        0 <= v < 0x8000,
        s.ram.len() <= 0x10000,
        16 <= s.ram[0] as int,
        (s.ram[0] as int) < s.ram.len(),
        s.ram[0] as int + 1 < 0x10000,
        fuel >= 7,
    ensures
        ({
            let s2 = run(push_constant_code(v), s, 0, fuel);
            let sp = s.ram[0] as int;
            &&& s2.ram.len() == s.ram.len()
            &&& s2.ram[0] as int == sp + 1
            &&& s2.ram[sp] == v as u16
            &&& forall|k: int|
                0 <= k < s.ram.len() && k != 0 && k != sp ==> s2.ram[k] == s.ram[k]
        }),
{
    let code = push_constant_code(v);
    lemma_push_constant_straight(v, s);
    assert forall|k: int| 0 <= k < code.len() implies !is_control(#[trigger] code[k]) by {}
    lemma_run_straight_run(code, s, 0, fuel);
    assert(code.skip(0) =~= code);
}

/// The state after a push from a fixed cell, instruction by instruction.
#[verifier::rlimit(100)]
#[verifier::spinoff_prover]
proof fn lemma_push_cell_straight(at: Instr, s: MState)
    requires
        at is At || at is AtReg,
        0 <= at_target(at),
        at_target(at) < s.ram.len(),
        s.ram.len() <= 0x10000,
        16 <= s.ram[0] as int,
        (s.ram[0] as int) < s.ram.len(),
        s.ram[0] as int + 1 < 0x10000,
    ensures
        ({
            let sp = s.ram[0] as int;
            let ta = at_target(at);
            run_straight(push_direct_code(at), s) == (MState {
                a: 0,
                d: s.ram[ta],
                ram: s.ram.update(sp, s.ram[ta]).update(0, (sp + 1) as u16),
            })
        }),
{
    let code = push_direct_code(at);
    let sp = s.ram[0] as int;
    let ta = at_target(at);
    let r1 = s.ram.update(sp, s.ram[ta]);
    let u1 = MState { a: ta as u16, d: s.d, ram: s.ram };
    let u2 = MState { a: ta as u16, d: s.ram[ta], ram: s.ram };
    let u3 = MState { a: 0, d: s.ram[ta], ram: s.ram };
    let u4 = MState { a: s.ram[0], d: s.ram[ta], ram: s.ram };
    let u5 = MState { a: s.ram[0], d: s.ram[ta], ram: r1 };
    let u6 = MState { a: 0, d: s.ram[ta], ram: r1 };
    let u7 = MState { a: 0, d: s.ram[ta], ram: r1.update(0, (sp + 1) as u16) };
    match at {
        Instr::At(n) => {
            assert(step(code[0], s) == u1);
        },
        Instr::AtReg(r) => {
            assert(step(code[0], s) == u1);
        },
        _ => {
            assert(false);
        },
    }
    assert(step(code[1], u1) == u2);
    assert(step(code[2], u2) == u3);
    assert(step(code[3], u3) == u4);
    assert(step(code[4], u4) == u5);
    assert(step(code[5], u5) == u6);
    assert(r1[0] == s.ram[0]);
    assert(wadd(s.ram[0], 1) == (sp + 1) as u16);
    assert(step(code[6], u6) == u7);
    assert(code.skip(0) =~= code);
    lemma_run_straight_step(code, s, 0);
    lemma_run_straight_step(code, u1, 1);
    lemma_run_straight_step(code, u2, 2);
    lemma_run_straight_step(code, u3, 3);
    lemma_run_straight_step(code, u4, 4);
    lemma_run_straight_step(code, u5, 5);
    lemma_run_straight_step(code, u6, 6);
    assert(code.skip(7) =~= Seq::<Instr>::empty());
}

/// The exact effect of a push from a fixed cell (`temp`, `pointer`,
/// `static`): the addressed cell lands on the stack top and the stack
/// pointer advances by one.
#[verifier::rlimit(100)]
#[verifier::spinoff_prover]
pub proof fn lemma_push_cell_effect(at: Instr, s: MState, fuel: nat)
    requires
        at is At || at is AtReg,
        0 <= at_target(at),
        at_target(at) < s.ram.len(),
        s.ram.len() <= 0x10000,
        16 <= s.ram[0] as int,
        (s.ram[0] as int) < s.ram.len(),
        s.ram[0] as int + 1 < 0x10000,
        fuel >= 7,
    ensures
        ({
            let s2 = run(push_direct_code(at), s, 0, fuel);
            let sp = s.ram[0] as int;
            let ta = at_target(at);
            &&& s2.ram.len() == s.ram.len()
            &&& s2.ram[0] as int == sp + 1
            &&& s2.ram[sp] == s.ram[ta]
            &&& forall|k: int|
                0 <= k < s.ram.len() && k != 0 && k != sp ==> s2.ram[k] == s.ram[k]
        }),
{
    let code = push_direct_code(at);
    lemma_push_cell_straight(at, s);
    assert forall|k: int| 0 <= k < code.len() implies !is_control(#[trigger] code[k]) by {}
    lemma_run_straight_run(code, s, 0, fuel);
    assert(code.skip(0) =~= code);
}

/// `push temp idx` is the cell push addressed at `R(5+idx)`.
pub proof fn lemma_push_temp_is_cell_push(idx: int)
    ensures
        push_temp_code(idx) == push_direct_code(Instr::AtReg(Reg::R((5 + idx) as u16))),
{
    assert(push_temp_code(idx) =~= push_direct_code(Instr::AtReg(Reg::R((5 + idx) as u16))));
}

/// The state after `pop temp idx`, instruction by instruction.
#[verifier::rlimit(100)]
#[verifier::spinoff_prover]
proof fn lemma_pop_temp_straight(idx: int, s: MState)
    requires
        0 <= idx,
        5 + idx < s.ram.len(),
        s.ram.len() <= 0x10000,
        16 <= s.ram[0] as int,
        (s.ram[0] as int) <= s.ram.len(),
    ensures
        ({
            let sp = s.ram[0] as int;
            run_straight(pop_temp_code(idx), s) == (MState {
                a: (5 + idx) as u16,
                d: s.ram[sp - 1],
                ram: s.ram.update(0, (sp - 1) as u16).update(5 + idx, s.ram[sp - 1]),
            })
        }),
{
    let code = pop_temp_code(idx);
    let sp = s.ram[0] as int;
    let r1 = s.ram.update(0, (sp - 1) as u16);
    let popped = s.ram[sp - 1];
    let u1 = MState { a: 0, d: s.d, ram: s.ram };
    let u2 = MState { a: (sp - 1) as u16, d: s.d, ram: r1 };
    let u3 = MState { a: (sp - 1) as u16, d: popped, ram: r1 };
    let u4 = MState { a: (5 + idx) as u16, d: popped, ram: r1 };
    let u5 = MState { a: (5 + idx) as u16, d: popped, ram: r1.update(5 + idx, popped) };
    assert(step(code[0], s) == u1);
    assert(wsub(s.ram[0], 1) == (sp - 1) as u16);
    assert(step(code[1], u1) == u2);
    assert(r1[sp - 1] == popped);
    assert(step(code[2], u2) == u3);
    assert(step(code[3], u3) == u4);
    assert(step(code[4], u4) == u5);
    assert(code.skip(0) =~= code);
    lemma_run_straight_step(code, s, 0);
    lemma_run_straight_step(code, u1, 1);
    lemma_run_straight_step(code, u2, 2);
    lemma_run_straight_step(code, u3, 3);
    lemma_run_straight_step(code, u4, 4);
    assert(code.skip(5) =~= Seq::<Instr>::empty());
}

/// The exact effect of `pop temp idx`: the stack pointer recedes by one and
/// the popped value lands in the fixed register `R(5+idx)`.
#[verifier::rlimit(100)]
#[verifier::spinoff_prover]
pub proof fn lemma_pop_temp_effect(idx: int, s: MState, fuel: nat)
    requires
        0 <= idx,
        5 + idx < s.ram.len(),
        s.ram.len() <= 0x10000,
        16 <= s.ram[0] as int,
        (s.ram[0] as int) <= s.ram.len(),
        fuel >= 5,
    ensures
        ({
            let s2 = run(pop_temp_code(idx), s, 0, fuel);
            let sp = s.ram[0] as int;
            &&& s2.ram.len() == s.ram.len()
            &&& s2.ram[0] as int == sp - 1
            &&& s2.ram[5 + idx] == s.ram[sp - 1]
            &&& forall|k: int|
                0 <= k < s.ram.len() && k != 0 && k != 5 + idx ==> s2.ram[k] == s.ram[k]
        }),
{
    let code = pop_temp_code(idx);
    lemma_pop_temp_straight(idx, s);
    assert forall|k: int| 0 <= k < code.len() implies !is_control(#[trigger] code[k]) by {}
    lemma_run_straight_run(code, s, 0, fuel);
    assert(code.skip(0) =~= code);
}

/// The state after a pop to a fixed cell, instruction by instruction.
#[verifier::rlimit(100)]
#[verifier::spinoff_prover]
proof fn lemma_pop_cell_straight(at: Instr, s: MState)
    requires
        at is At || at is AtReg,
        0 < at_target(at),
        at_target(at) != 13,
        at_target(at) < s.ram.len(),
        s.ram.len() <= 0x10000,
        16 <= s.ram[0] as int,
        (s.ram[0] as int) <= s.ram.len(),
    ensures
        ({
            let sp = s.ram[0] as int;
            let ta = at_target(at);
            run_straight(pop_direct_code(at), s) == (MState {
                a: ta as u16,
                d: s.ram[sp - 1],
                ram: s.ram.update(13, ta as u16).update(0, (sp - 1) as u16).update(
                    ta,
                    s.ram[sp - 1],
                ),
            })
        }),
{
    let code = pop_direct_code(at);
    let sp = s.ram[0] as int;
    let ta = at_target(at);
    let r1 = s.ram.update(13, ta as u16);
    let r2 = r1.update(0, (sp - 1) as u16);
    let popped = s.ram[sp - 1];
    let u1 = MState { a: ta as u16, d: s.d, ram: s.ram };
    let u2 = MState { a: ta as u16, d: ta as u16, ram: s.ram };
    let u3 = MState { a: 13, d: ta as u16, ram: s.ram };
    let u4 = MState { a: 13, d: ta as u16, ram: r1 };
    let u5 = MState { a: 0, d: ta as u16, ram: r1 };
    let u6 = MState { a: (sp - 1) as u16, d: ta as u16, ram: r2 };
    let u7 = MState { a: (sp - 1) as u16, d: popped, ram: r2 };
    let u8 = MState { a: 13, d: popped, ram: r2 };
    let u9 = MState { a: ta as u16, d: popped, ram: r2 };
    let u10 = MState { a: ta as u16, d: popped, ram: r2.update(ta, popped) };
    match at {
        Instr::At(n) => {
            assert(step(code[0], s) == u1);
        },
        Instr::AtReg(r) => {
            assert(step(code[0], s) == u1);
        },
        _ => {
            assert(false);
        },
    }
    assert(step(code[1], u1) == u2);
    assert(step(code[2], u2) == u3);
    assert(step(code[3], u3) == u4);
    assert(step(code[4], u4) == u5);
    assert(r1[0] == s.ram[0]);
    assert(wsub(s.ram[0], 1) == (sp - 1) as u16);
    assert(step(code[5], u5) == u6);
    assert(r2[sp - 1] == popped);
    assert(step(code[6], u6) == u7);
    assert(step(code[7], u7) == u8);
    assert(r2[13] == ta as u16);
    assert(step(code[8], u8) == u9);
    assert(step(code[9], u9) == u10);
    assert(code.skip(0) =~= code);
    lemma_run_straight_step(code, s, 0);
    lemma_run_straight_step(code, u1, 1);
    lemma_run_straight_step(code, u2, 2);
    lemma_run_straight_step(code, u3, 3);
    lemma_run_straight_step(code, u4, 4);
    lemma_run_straight_step(code, u5, 5);
    lemma_run_straight_step(code, u6, 6);
    lemma_run_straight_step(code, u7, 7);
    lemma_run_straight_step(code, u8, 8);
    lemma_run_straight_step(code, u9, 9);
    assert(code.skip(10) =~= Seq::<Instr>::empty());
}

/// The exact effect of a pop to a fixed cell (`pointer`, `static`): the
/// stack pointer recedes by one and the popped value lands in the addressed
/// cell, whose address passes through the scratch register `R13`.
#[verifier::rlimit(100)]
#[verifier::spinoff_prover]
pub proof fn lemma_pop_cell_effect(at: Instr, s: MState, fuel: nat)
    requires
        at is At || at is AtReg,
        0 < at_target(at),
        at_target(at) != 13,
        at_target(at) < s.ram.len(),
        s.ram.len() <= 0x10000,
        16 <= s.ram[0] as int,
        (s.ram[0] as int) <= s.ram.len(),
        fuel >= 10,
    ensures
        ({
            let s2 = run(pop_direct_code(at), s, 0, fuel);
            let sp = s.ram[0] as int;
            let ta = at_target(at);
            &&& s2.ram.len() == s.ram.len()
            &&& s2.ram[0] as int == sp - 1
            &&& s2.ram[ta] == s.ram[sp - 1]
            &&& s2.ram[13] == ta as u16
            &&& forall|k: int|
                0 <= k < s.ram.len() && k != 0 && k != 13 && k != ta ==> s2.ram[k] == s.ram[k]
        }),
{
    let code = pop_direct_code(at);
    lemma_pop_cell_straight(at, s);
    assert forall|k: int| 0 <= k < code.len() implies !is_control(#[trigger] code[k]) by {}
    lemma_run_straight_run(code, s, 0, fuel);
    assert(code.skip(0) =~= code);
}

/// The word a binary operator leaves in place of its two operands:
/// first-pushed combined with second-pushed.
pub open spec fn binary_result(op_instr: Instr, x: u16, y: u16) -> u16 {
    match op_instr {
        Instr::MeqMplusD => wadd(x, y),
        Instr::MeqMminusD => wsub(x, y),
        Instr::MeqMandD => x & y,
        Instr::MeqMorD => x | y,
        _ => 0,
    }
}

/// The state after a binary operation, instruction by instruction.
#[verifier::rlimit(100)]
#[verifier::spinoff_prover]
proof fn lemma_binary_straight(op_instr: Instr, s: MState)
    requires
        op_instr == Instr::MeqMplusD || op_instr == Instr::MeqMminusD || op_instr
            == Instr::MeqMandD || op_instr == Instr::MeqMorD,
        s.ram.len() <= 0x10000,
        16 <= s.ram[0] as int,
        (s.ram[0] as int) <= s.ram.len(),
    ensures
        ({
            let sp = s.ram[0] as int;
            let x = s.ram[sp - 2];
            let y = s.ram[sp - 1];
            run_straight(binary_code(op_instr), s) == (MState {
                a: (sp - 2) as u16,
                d: y,
                ram: s.ram.update(0, (sp - 1) as u16).update(
                    sp - 2,
                    binary_result(op_instr, x, y),
                ),
            })
        }),
{
    let code = binary_code(op_instr);
    let sp = s.ram[0] as int;
    let x = s.ram[sp - 2];
    let y = s.ram[sp - 1];
    let r1 = s.ram.update(0, (sp - 1) as u16);
    let u1 = MState { a: 0, d: s.d, ram: s.ram };
    let u2 = MState { a: (sp - 1) as u16, d: s.d, ram: r1 };
    let u3 = MState { a: (sp - 1) as u16, d: y, ram: r1 };
    let u4 = MState { a: (sp - 2) as u16, d: y, ram: r1 };
    let u5 = MState {
        a: (sp - 2) as u16,
        d: y,
        ram: r1.update(sp - 2, binary_result(op_instr, x, y)),
    };
    assert(step(code[0], s) == u1);
    assert(wsub(s.ram[0], 1) == (sp - 1) as u16);
    assert(step(code[1], u1) == u2);
    assert(r1[sp - 1] == y);
    assert(step(code[2], u2) == u3);
    assert(wsub((sp - 1) as u16, 1) == (sp - 2) as u16);
    assert(step(code[3], u3) == u4);
    assert(r1[sp - 2] == x);
    assert(step(code[4], u4) == u5);
    assert(code.skip(0) =~= code);
    lemma_run_straight_step(code, s, 0);
    lemma_run_straight_step(code, u1, 1);
    lemma_run_straight_step(code, u2, 2);
    lemma_run_straight_step(code, u3, 3);
    lemma_run_straight_step(code, u4, 4);
    assert(code.skip(5) =~= Seq::<Instr>::empty());
}

/// The exact effect of a binary operation: both operands leave the stack and
/// their combination stands at the new stack top — for `sub`, the
/// first-pushed value minus the second-pushed one.
#[verifier::rlimit(100)]
#[verifier::spinoff_prover]
pub proof fn lemma_binary_effect(op_instr: Instr, s: MState, fuel: nat)
    requires
        op_instr == Instr::MeqMplusD || op_instr == Instr::MeqMminusD || op_instr
            == Instr::MeqMandD || op_instr == Instr::MeqMorD,
        s.ram.len() <= 0x10000,
        16 <= s.ram[0] as int,
        (s.ram[0] as int) <= s.ram.len(),
        fuel >= 5,
    ensures
        ({
            let s2 = run(binary_code(op_instr), s, 0, fuel);
            let sp = s.ram[0] as int;
            let x = s.ram[sp - 2];
            let y = s.ram[sp - 1];
            &&& s2.ram.len() == s.ram.len()
            &&& s2.ram[0] as int == sp - 1
            &&& s2.ram[sp - 2] == binary_result(op_instr, x, y)
            &&& forall|k: int|
                0 <= k < s.ram.len() && k != 0 && k != sp - 2 ==> s2.ram[k] == s.ram[k]
        }),
{
    let code = binary_code(op_instr);
    lemma_binary_straight(op_instr, s);
    assert forall|k: int| 0 <= k < code.len() implies !is_control(#[trigger] code[k]) by {}
    lemma_run_straight_run(code, s, 0, fuel);
    assert(code.skip(0) =~= code);
}

/// The exact effect of the unary operators: `not` complements the stack top
/// in place, `neg` replaces it by zero minus itself; the stack pointer does
/// not move.
#[verifier::rlimit(100)]
#[verifier::spinoff_prover]
pub proof fn lemma_unary_effect(op: Seq<char>, s: MState, fuel: nat)
    requires
        op == "not"@ || op == "neg"@,
        s.ram.len() <= 0x10000,
        16 <= s.ram[0] as int,
        (s.ram[0] as int) <= s.ram.len(),
        fuel >= 4,
    ensures
        ({
            let code = if op == "not"@ {
                not_code()
            } else {
                neg_code()
            };
            let s2 = run(code, s, 0, fuel);
            let sp = s.ram[0] as int;
            let m = s.ram[sp - 1];
            &&& s2.ram.len() == s.ram.len()
            &&& s2.ram[0] as int == sp
            &&& s2.ram[sp - 1] == (if op == "not"@ {
                !m
            } else {
                wsub(0, m)
            })
            &&& forall|k: int|
                0 <= k < s.ram.len() && k != sp - 1 ==> s2.ram[k] == s.ram[k]
        }),
{
    let sp = s.ram[0] as int;
    let m = s.ram[sp - 1];
    if op == "not"@ {
        let code = not_code();
        let u1 = MState { a: 0, d: s.d, ram: s.ram };
        let u2 = MState { a: (sp - 1) as u16, d: s.d, ram: s.ram };
        let u3 = MState { a: (sp - 1) as u16, d: s.d, ram: s.ram.update(sp - 1, !m) };
        assert(step(code[0], s) == u1);
        assert(wsub(s.ram[0], 1) == (sp - 1) as u16);
        assert(step(code[1], u1) == u2);
        assert(step(code[2], u2) == u3);
        assert(code.skip(0) =~= code);
        lemma_run_straight_step(code, s, 0);
        lemma_run_straight_step(code, u1, 1);
        lemma_run_straight_step(code, u2, 2);
        assert(code.skip(3) =~= Seq::<Instr>::empty());
        assert(run_straight(code, s) == u3);
        assert forall|k: int| 0 <= k < code.len() implies !is_control(#[trigger] code[k]) by {}
        lemma_run_straight_run(code, s, 0, fuel);
    } else {
        let code = neg_code();
        let u1 = MState { a: s.a, d: 0, ram: s.ram };
        let u2 = MState { a: 0, d: 0, ram: s.ram };
        let u3 = MState { a: (sp - 1) as u16, d: 0, ram: s.ram };
        let u4 = MState { a: (sp - 1) as u16, d: 0, ram: s.ram.update(sp - 1, wsub(0, m)) };
        assert(step(code[0], s) == u1);
        assert(step(code[1], u1) == u2);
        assert(wsub(s.ram[0], 1) == (sp - 1) as u16);
        assert(step(code[2], u2) == u3);
        assert(step(code[3], u3) == u4);
        assert(code.skip(0) =~= code);
        lemma_run_straight_step(code, s, 0);
        lemma_run_straight_step(code, u1, 1);
        lemma_run_straight_step(code, u2, 2);
        lemma_run_straight_step(code, u3, 3);
        assert(code.skip(4) =~= Seq::<Instr>::empty());
        assert(run_straight(code, s) == u4);
        assert forall|k: int| 0 <= k < code.len() implies !is_control(#[trigger] code[k]) by {}
        lemma_run_straight_run(code, s, 0, fuel);
    }
}

/// Textual form of the uniqueness law: distinct counter suffixes render
/// distinct label declarations, for the false-branch label and for the merge
/// label alike — the decimal suffix of the line determines the counter.
pub proof fn lemma_label_text_unique(n1: u32, n2: u32)
    requires
        n1 != n2,
    ensures
        render_instr(Instr::LabelFalse(n1)) != render_instr(Instr::LabelFalse(n2)),
        render_instr(Instr::LabelContinue(n1)) != render_instr(Instr::LabelContinue(n2)),
{
    lemma_label_render_inj("(FALSE"@, n1, n2);
    lemma_label_render_inj("(CONTINUE"@, n1, n2);
}

/// A rendered label line `prefix + digits + ")\n"` determines its suffix.
proof fn lemma_label_render_inj(prefix: Seq<char>, n1: u32, n2: u32)
    requires
        n1 != n2,
    ensures
        prefix + dec_str(n1 as nat) + ")\n"@ != prefix + dec_str(n2 as nat) + ")\n"@,
{
    let d1 = dec_str(n1 as nat);
    let d2 = dec_str(n2 as nat);
    let t1 = prefix + d1 + ")\n"@;
    let t2 = prefix + d2 + ")\n"@;
    if t1 == t2 {
        assert(t1.len() == prefix.len() + d1.len() + ")\n"@.len());
        assert(t2.len() == prefix.len() + d2.len() + ")\n"@.len());
        assert(d1.len() == d2.len());
        assert(d1 =~= t1.subrange(prefix.len() as int, (prefix.len() + d1.len()) as int));
        assert(d2 =~= t2.subrange(prefix.len() as int, (prefix.len() + d2.len()) as int));
        lemma_dec_str_injective(n1 as nat, n2 as nat);
    }
}

} // verus!
