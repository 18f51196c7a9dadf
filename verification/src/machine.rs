//! Semantics of the emitted Hack instructions.
//!
//! [`MState`] is the ghost machine state: the A and D registers and the RAM
//! (the stack-top pointer `SP` lives at address 0, the segment bases `LCL`,
//! `ARG`, `THIS`, `THAT` at 1–4, the scratch register `R13` at 13).
//! [`run`] is the small-step semantics with a program counter and fuel;
//! [`run_straight`] is the simpler semantics of jump-free code, and
//! [`lemma_run_straight_run`] connects the two. [`Machine`] executes programs
//! and is proved to agree with [`run`].

use vstd::prelude::*;

use crate::instr::{Instr, Reg};

verus! {

/// Ghost state of the Hack machine.
pub struct MState {
    /// The address register A.
    pub a: u16,
    /// The data register D.
    pub d: u16,
    /// The RAM, one 16-bit word per cell.
    pub ram: Seq<u16>,
}

/// The RAM address a register symbol resolves to.
pub open spec fn reg_addr(r: Reg) -> u16 {
    match r {
        Reg::Sp => 0,
        Reg::Lcl => 1,
        Reg::Arg => 2,
        Reg::This => 3,
        Reg::That => 4,
        Reg::R(n) => n,
    }
}

/// 16-bit wrapping addition.
pub open spec fn wadd(x: u16, y: u16) -> u16 {
    (((x as int) + (y as int)) % 0x10000) as u16
}

/// 16-bit wrapping subtraction.
pub open spec fn wsub(x: u16, y: u16) -> u16 {
    (((x as int) + 0x10000 - (y as int)) % 0x10000) as u16
}

/// Whether an instruction is a conditional or unconditional jump.
pub open spec fn is_jump(i: Instr) -> bool {
    i is JneD || i is JgeD || i is JleD || i is Jmp
}

/// Whether an instruction needs the program text or the program counter:
/// jumps, label declarations, and label-address loads.
pub open spec fn is_control(i: Instr) -> bool {
    is_jump(i) || i is AtFalse || i is AtContinue || i is LabelFalse || i is LabelContinue
}

/// Whether a jump instruction branches, given the D register.
/// The conditions read D as a signed (two's-complement) word.
pub open spec fn jump_taken(i: Instr, d: u16) -> bool {
    match i {
        Instr::JneD => d != 0,
        Instr::JgeD => d < 0x8000,
        Instr::JleD => d == 0 || d >= 0x8000,
        Instr::Jmp => true,
        _ => false,
    }
}

/// The effect of one non-control instruction. An instruction that addresses
/// RAM through A leaves the state unchanged when A is out of bounds.
pub open spec fn step(i: Instr, s: MState) -> MState {
    let inb = (s.a as int) < s.ram.len();
    let m = s.ram[s.a as int];
    match i {
        Instr::At(n) => MState { a: n, ..s },
        Instr::AtReg(r) => MState { a: reg_addr(r), ..s },
        Instr::DeqA => MState { d: s.a, ..s },
        Instr::Deq0 => MState { d: 0, ..s },
        Instr::DeqM => if inb { MState { d: m, ..s } } else { s },
        Instr::MeqD => if inb { MState { ram: s.ram.update(s.a as int, s.d), ..s } } else { s },
        Instr::Meq0 => if inb { MState { ram: s.ram.update(s.a as int, 0), ..s } } else { s },
        Instr::MeqNeg1 => if inb { MState { ram: s.ram.update(s.a as int, 0xFFFF), ..s } } else { s },
        Instr::AeqM => if inb { MState { a: m, ..s } } else { s },
        Instr::AeqAminus1 => MState { a: wsub(s.a, 1), ..s },
        Instr::AeqMminus1 => if inb { MState { a: wsub(m, 1), ..s } } else { s },
        Instr::AeqDplusA => MState { a: wadd(s.d, s.a), ..s },
        Instr::DeqDplusA => MState { d: wadd(s.d, s.a), ..s },
        Instr::AMeqMminus1 => if inb {
            MState { a: wsub(m, 1), d: s.d, ram: s.ram.update(s.a as int, wsub(m, 1)) }
        } else {
            s
        },
        Instr::MeqMplus1 => if inb { MState { ram: s.ram.update(s.a as int, wadd(m, 1)), ..s } } else { s },
        Instr::MeqMplusD => if inb { MState { ram: s.ram.update(s.a as int, wadd(m, s.d)), ..s } } else { s },
        Instr::MeqMminusD => if inb { MState { ram: s.ram.update(s.a as int, wsub(m, s.d)), ..s } } else { s },
        Instr::MeqMandD => if inb { MState { ram: s.ram.update(s.a as int, m & s.d), ..s } } else { s },
        Instr::MeqMorD => if inb { MState { ram: s.ram.update(s.a as int, m | s.d), ..s } } else { s },
        Instr::MeqNotM => if inb { MState { ram: s.ram.update(s.a as int, !m), ..s } } else { s },
        Instr::MeqDminusM => if inb { MState { ram: s.ram.update(s.a as int, wsub(s.d, m)), ..s } } else { s },
        Instr::DeqMminusD => if inb { MState { d: wsub(m, s.d), ..s } } else { s },
        Instr::AtFalse(_) => s,
        Instr::AtContinue(_) => s,
        Instr::LabelFalse(_) => s,
        Instr::LabelContinue(_) => s,
        Instr::JneD => s,
        Instr::JgeD => s,
        Instr::JleD => s,
        Instr::Jmp => s,
    }
}

/// The position of the first occurrence of `l` at or after `i`, or
/// `prog.len()` if there is none.
pub open spec fn find_label_from(prog: Seq<Instr>, l: Instr, i: int) -> int
    recommends
        0 <= i <= prog.len(),
    decreases prog.len() - i,
{
    if i < 0 || i >= prog.len() {
        prog.len() as int
    } else if prog[i] == l {
        i
    } else {
        find_label_from(prog, l, i + 1)
    }
}

/// The position of the first occurrence of `l`, or `prog.len()` if none.
pub open spec fn find_label(prog: Seq<Instr>, l: Instr) -> int {
    find_label_from(prog, l, 0)
}

/// The A-register value a label load produces: the label's position,
/// saturated to a 16-bit word.
pub open spec fn label_addr(prog: Seq<Instr>, l: Instr) -> u16 {
    let p = find_label(prog, l);
    if p <= 0xFFFF {
        p as u16
    } else {
        0xFFFF
    }
}

/// Runs `prog` from `s` at program counter `pc` for at most `fuel`
/// instructions; halts when the counter leaves the program.
pub open spec fn run(prog: Seq<Instr>, s: MState, pc: int, fuel: nat) -> MState
    decreases fuel,
{
    if fuel == 0 || pc < 0 || pc >= prog.len() {
        s
    } else {
        let f2 = (fuel - 1) as nat;
        match prog[pc] {
            Instr::AtFalse(n) => run(
                prog,
                MState { a: label_addr(prog, Instr::LabelFalse(n)), ..s },
                pc + 1,
                f2,
            ),
            Instr::AtContinue(n) => run(
                prog,
                MState { a: label_addr(prog, Instr::LabelContinue(n)), ..s },
                pc + 1,
                f2,
            ),
            Instr::LabelFalse(_) => run(prog, s, pc + 1, f2),
            Instr::LabelContinue(_) => run(prog, s, pc + 1, f2),
            Instr::JneD | Instr::JgeD | Instr::JleD | Instr::Jmp => if jump_taken(
                prog[pc],
                s.d,
            ) {
                run(prog, s, s.a as int, f2)
            } else {
                run(prog, s, pc + 1, f2)
            },
            _ => run(prog, step(prog[pc], s), pc + 1, f2),
        }
    }
}

/// The semantics of jump-free code: each instruction in order, once.
pub open spec fn run_straight(code: Seq<Instr>, s: MState) -> MState
    decreases code.len(),
{
    if code.len() == 0 {
        s
    } else {
        run_straight(code.drop_first(), step(code[0], s))
    }
}

/// On code without control-flow instructions, [`run`] with enough fuel agrees
/// with [`run_straight`].
pub proof fn lemma_run_straight_run(prog: Seq<Instr>, s: MState, pc: int, fuel: nat)
    requires
        0 <= pc <= prog.len(),
        fuel >= prog.len() - pc,
        forall|j: int| 0 <= j < prog.len() ==> !is_control(#[trigger] prog[j]),
    ensures
        run(prog, s, pc, fuel) == run_straight(prog.skip(pc), s),
    decreases prog.len() - pc,
{
    if pc == prog.len() {
        assert(prog.skip(pc) =~= Seq::<Instr>::empty());
    } else {
        assert(!is_control(prog[pc]));
        assert(run(prog, s, pc, fuel) == run(prog, step(prog[pc], s), pc + 1, (fuel - 1) as nat));
        lemma_run_straight_run(prog, step(prog[pc], s), pc + 1, (fuel - 1) as nat);
        assert(prog.skip(pc).drop_first() =~= prog.skip(pc + 1));
        assert(prog.skip(pc)[0] == prog[pc]);
    }
}

/// The value of a word read as a signed (two's-complement) integer.
pub open spec fn as_signed(w: u16) -> int {
    if w < 0x8000 {
        w as int
    } else {
        w as int - 0x10000
    }
}

/// Wrapping subtraction is zero exactly on equal words.
pub proof fn lemma_wsub_zero(x: u16, y: u16)
    ensures
        (wsub(x, y) == 0) == (x == y),
{
}

/// When the signed difference does not overflow, wrapping subtraction
/// computes it exactly.
pub proof fn lemma_wsub_signed(x: u16, y: u16)
    requires
        -0x8000 <= as_signed(x) - as_signed(y) < 0x8000,
    ensures
        as_signed(wsub(x, y)) == as_signed(x) - as_signed(y),
{
}

/// One step of [`run`] at a non-control instruction.
pub proof fn lemma_run_step(prog: Seq<Instr>, s: MState, pc: int, fuel: nat)
    requires
        0 <= pc < prog.len(),
        fuel > 0,
        !is_control(prog[pc]),
    ensures
        run(prog, s, pc, fuel) == run(prog, step(prog[pc], s), pc + 1, (fuel - 1) as nat),
{
}

/// One step of straight-line execution, at position `k` of the code.
pub proof fn lemma_run_straight_step(code: Seq<Instr>, s: MState, k: int)
    requires
        0 <= k < code.len(),
    ensures
        run_straight(code.skip(k), s) == run_straight(code.skip(k + 1), step(code[k], s)),
{
    assert(code.skip(k).drop_first() =~= code.skip(k + 1));
    assert(code.skip(k)[0] == code[k]);
}

/// Straight-line execution distributes over concatenation.
pub proof fn lemma_run_straight_concat(c1: Seq<Instr>, c2: Seq<Instr>, s: MState)
    ensures
        run_straight(c1 + c2, s) == run_straight(c2, run_straight(c1, s)),
    decreases c1.len(),
{
    if c1.len() == 0 {
        assert(c1 + c2 =~= c2);
    } else {
        assert((c1 + c2).drop_first() =~= c1.drop_first() + c2);
        assert((c1 + c2)[0] == c1[0]);
        lemma_run_straight_concat(c1.drop_first(), c2, step(c1[0], s));
    }
}

/// An executable Hack machine: A and D registers and a RAM of fixed size.
pub struct Machine {
    a: u16,
    d: u16,
    ram: Vec<u16>,
}

impl View for Machine {
    type V = MState;

    closed spec fn view(&self) -> MState {
        MState { a: self.a, d: self.d, ram: self.ram@ }
    }
}

/// 16-bit wrapping addition.
pub fn wadd_exec(x: u16, y: u16) -> (r: u16)
    ensures
        r == wadd(x, y),
{
    (((x as u32) + (y as u32)) % 0x10000) as u16
}

/// 16-bit wrapping subtraction.
pub fn wsub_exec(x: u16, y: u16) -> (r: u16)
    ensures
        r == wsub(x, y),
{
    (((x as u32) + 0x10000 - (y as u32)) % 0x10000) as u16
}

/// The RAM address a register symbol resolves to.
pub fn reg_addr_exec(r: Reg) -> (a: u16)
    ensures
        a == reg_addr(r),
{
    match r {
        Reg::Sp => 0,
        Reg::Lcl => 1,
        Reg::Arg => 2,
        Reg::This => 3,
        Reg::That => 4,
        Reg::R(n) => n,
    }
}

/// The position of the first occurrence of `l` in `prog`, or `prog.len()`.
pub fn find_label_pos(prog: &Vec<Instr>, l: Instr) -> (p: usize)
    ensures
        p as int == find_label(prog@, l),
{
    let mut i: usize = 0;
    while i < prog.len()
        invariant
            i <= prog.len(),
            find_label(prog@, l) == find_label_from(prog@, l, i as int),
        decreases prog.len() - i,
    {
        if prog[i] == l {
            assert(find_label_from(prog@, l, i as int) == i as int);
            return i;
        }
        i += 1;
    }
    i
}

impl Machine {
    /// A machine with zeroed registers and `size` zeroed RAM cells.
    pub fn new(size: usize) -> (m: Machine)
        ensures
            m@.a == 0,
            m@.d == 0,
            m@.ram.len() == size,
            forall|j: int| 0 <= j < size ==> m@.ram[j] == 0,
    {
        let mut ram: Vec<u16> = Vec::new();
        while ram.len() < size
            invariant
                ram.len() <= size,
                forall|j: int| 0 <= j < ram.len() ==> ram@[j] == 0,
            decreases size - ram.len(),
        {
            ram.push(0);
        }
        Machine { a: 0, d: 0, ram }
    }

    /// Reads one RAM cell.
    pub fn read_mem(&self, addr: usize) -> (v: u16)
        requires
            addr < self@.ram.len(),
        ensures
            v == self@.ram[addr as int],
    {
        self.ram[addr]
    }

    /// Writes one RAM cell, leaving the registers unchanged.
    pub fn write_mem(&mut self, addr: usize, v: u16)
        requires
            addr < old(self)@.ram.len(),
        ensures
            final(self)@ == (MState { ram: old(self)@.ram.update(addr as int, v), ..old(self)@ }),
    {
        self.ram.set(addr, v);
    }

    /// Applies one non-control instruction.
    fn step_instr(&mut self, i: Instr)
        ensures
            final(self)@ == step(i, old(self)@),
    {
        match i {
            Instr::At(n) => self.a = n,
            Instr::AtReg(r) => self.a = reg_addr_exec(r),
            Instr::DeqA => self.d = self.a,
            Instr::Deq0 => self.d = 0,
            Instr::DeqM => {
                if (self.a as usize) < self.ram.len() {
                    self.d = self.ram[self.a as usize];
                }
            },
            Instr::MeqD => {
                if (self.a as usize) < self.ram.len() {
                    let v = self.d;
                    self.ram.set(self.a as usize, v);
                }
            },
            Instr::Meq0 => {
                if (self.a as usize) < self.ram.len() {
                    self.ram.set(self.a as usize, 0);
                }
            },
            Instr::MeqNeg1 => {
                if (self.a as usize) < self.ram.len() {
                    self.ram.set(self.a as usize, 0xFFFF);
                }
            },
            Instr::AeqM => {
                if (self.a as usize) < self.ram.len() {
                    self.a = self.ram[self.a as usize];
                }
            },
            Instr::AeqAminus1 => self.a = wsub_exec(self.a, 1),
            Instr::AeqMminus1 => {
                if (self.a as usize) < self.ram.len() {
                    self.a = wsub_exec(self.ram[self.a as usize], 1);
                }
            },
            Instr::AeqDplusA => self.a = wadd_exec(self.d, self.a),
            Instr::DeqDplusA => self.d = wadd_exec(self.d, self.a),
            Instr::AMeqMminus1 => {
                if (self.a as usize) < self.ram.len() {
                    let v = wsub_exec(self.ram[self.a as usize], 1);
                    self.ram.set(self.a as usize, v);
                    self.a = v;
                }
            },
            Instr::MeqMplus1 => {
                if (self.a as usize) < self.ram.len() {
                    let v = wadd_exec(self.ram[self.a as usize], 1);
                    self.ram.set(self.a as usize, v);
                }
            },
            Instr::MeqMplusD => {
                if (self.a as usize) < self.ram.len() {
                    let v = wadd_exec(self.ram[self.a as usize], self.d);
                    self.ram.set(self.a as usize, v);
                }
            },
            Instr::MeqMminusD => {
                if (self.a as usize) < self.ram.len() {
                    let v = wsub_exec(self.ram[self.a as usize], self.d);
                    self.ram.set(self.a as usize, v);
                }
            },
            Instr::MeqMandD => {
                if (self.a as usize) < self.ram.len() {
                    let v = self.ram[self.a as usize] & self.d;
                    self.ram.set(self.a as usize, v);
                }
            },
            Instr::MeqMorD => {
                if (self.a as usize) < self.ram.len() {
                    let v = self.ram[self.a as usize] | self.d;
                    self.ram.set(self.a as usize, v);
                }
            },
            Instr::MeqNotM => {
                if (self.a as usize) < self.ram.len() {
                    let v = !self.ram[self.a as usize];
                    self.ram.set(self.a as usize, v);
                }
            },
            Instr::MeqDminusM => {
                if (self.a as usize) < self.ram.len() {
                    let v = wsub_exec(self.d, self.ram[self.a as usize]);
                    self.ram.set(self.a as usize, v);
                }
            },
            Instr::DeqMminusD => {
                if (self.a as usize) < self.ram.len() {
                    self.d = wsub_exec(self.ram[self.a as usize], self.d);
                }
            },
            Instr::AtFalse(_) => {},
            Instr::AtContinue(_) => {},
            Instr::LabelFalse(_) => {},
            Instr::LabelContinue(_) => {},
            Instr::JneD => {},
            Instr::JgeD => {},
            Instr::JleD => {},
            Instr::Jmp => {},
        }
    }

    /// Runs `prog` from program counter 0 for at most `fuel` instructions.
    pub fn execute(&mut self, prog: &Vec<Instr>, fuel: u64)
        ensures
            final(self)@ == run(prog@, old(self)@, 0, fuel as nat),
    {
        let mut pc: usize = 0;
        let mut steps: u64 = fuel;
        while steps > 0 && pc < prog.len()
            invariant
                run(prog@, old(self)@, 0, fuel as nat) == run(prog@, self@, pc as int, steps as nat),
            decreases steps,
        {
            let ghost s0 = self@;
            let ghost pc0 = pc as int;
            let ghost st0 = steps as nat;
            let i = prog[pc];
            match i {
                Instr::AtFalse(n) => {
                    let p = find_label_pos(prog, Instr::LabelFalse(n));
                    self.a = if p <= 0xFFFF {
                        p as u16
                    } else {
                        0xFFFF
                    };
                    pc += 1;
                },
                Instr::AtContinue(n) => {
                    let p = find_label_pos(prog, Instr::LabelContinue(n));
                    self.a = if p <= 0xFFFF {
                        p as u16
                    } else {
                        0xFFFF
                    };
                    pc += 1;
                },
                Instr::LabelFalse(_) => {
                    pc += 1;
                },
                Instr::LabelContinue(_) => {
                    pc += 1;
                },
                Instr::JneD => {
                    if self.d != 0 {
                        pc = self.a as usize;
                    } else {
                        pc += 1;
                    }
                },
                Instr::JgeD => {
                    if self.d < 0x8000 {
                        pc = self.a as usize;
                    } else {
                        pc += 1;
                    }
                },
                Instr::JleD => {
                    if self.d == 0 || self.d >= 0x8000 {
                        pc = self.a as usize;
                    } else {
                        pc += 1;
                    }
                },
                Instr::Jmp => {
                    pc = self.a as usize;
                },
                _ => {
                    self.step_instr(i);
                    pc += 1;
                },
            }
            steps -= 1;
            proof {
                assert(run(prog@, s0, pc0, st0) == run(prog@, self@, pc as int, steps as nat));
            }
        }
    }
}

} // verus!
