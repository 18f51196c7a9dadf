//! The generated code run on the machine model: stack effects, comparison
//! results, round trips.

use vmtranslator::code_writer::CodeWriter;
use vmtranslator::instr::Instr;
use vmtranslator::machine::Machine;

const SP: usize = 0;
const LCL: usize = 1;
const ARG: usize = 2;
const THIS: usize = 3;
const THAT: usize = 4;

/// A machine with the stack based at 256 and 2048 RAM cells.
fn machine() -> Machine {
    let mut m = Machine::new(2048);
    m.write_mem(SP, 256);
    m
}

fn run(m: &mut Machine, parts: Vec<Vec<Instr>>) {
    let mut prog: Vec<Instr> = Vec::new();
    for p in parts {
        prog.extend(p);
    }
    m.execute(&prog, 100_000);
}

fn top(m: &Machine) -> u16 {
    let sp = m.read_mem(SP) as usize;
    m.read_mem(sp - 1)
}

#[test]
fn push_constant_pop_temp_lands_in_r7() {
    let w = CodeWriter::new();
    let mut m = machine();
    run(
        &mut m,
        vec![
            w.write_push("constant", 17).unwrap(),
            w.write_pop("temp", 2).unwrap(),
        ],
    );
    assert_eq!(m.read_mem(7), 17);
    assert_eq!(m.read_mem(SP), 256);
}

#[test]
fn sub_is_second_minus_first() {
    let mut w = CodeWriter::new();
    let mut m = machine();
    run(
        &mut m,
        vec![
            w.write_push("constant", 10).unwrap(),
            w.write_push("constant", 3).unwrap(),
            w.write_arithmetic("sub").unwrap(),
        ],
    );
    assert_eq!(top(&m), 7);
    assert_eq!(m.read_mem(SP), 257);
}

#[test]
fn add_and_or_results() {
    let mut w = CodeWriter::new();
    let mut m = machine();
    run(
        &mut m,
        vec![
            w.write_push("constant", 12).unwrap(),
            w.write_push("constant", 10).unwrap(),
            w.write_arithmetic("and").unwrap(),
        ],
    );
    assert_eq!(top(&m), 8);
    let mut m2 = machine();
    run(
        &mut m2,
        vec![
            w.write_push("constant", 12).unwrap(),
            w.write_push("constant", 10).unwrap(),
            w.write_arithmetic("or").unwrap(),
        ],
    );
    assert_eq!(top(&m2), 14);
    let mut m3 = machine();
    run(
        &mut m3,
        vec![
            w.write_push("constant", 30000).unwrap(),
            w.write_push("constant", 30000).unwrap(),
            w.write_arithmetic("add").unwrap(),
        ],
    );
    assert_eq!(top(&m3), 60000);
}

#[test]
fn eq_on_equal_values_is_all_bits_set() {
    let mut w = CodeWriter::new();
    let mut m = machine();
    run(
        &mut m,
        vec![
            w.write_push("constant", 5).unwrap(),
            w.write_push("constant", 5).unwrap(),
            w.write_arithmetic("eq").unwrap(),
        ],
    );
    assert_eq!(top(&m), 0xFFFF);
    assert_eq!(m.read_mem(SP), 257);
}

#[test]
fn eq_on_unequal_values_is_zero() {
    let mut w = CodeWriter::new();
    let mut m = machine();
    run(
        &mut m,
        vec![
            w.write_push("constant", 5).unwrap(),
            w.write_push("constant", 6).unwrap(),
            w.write_arithmetic("eq").unwrap(),
        ],
    );
    assert_eq!(top(&m), 0);
}

#[test]
fn lt_and_gt_compare_in_push_order() {
    let mut w = CodeWriter::new();
    let mut m = machine();
    run(
        &mut m,
        vec![
            w.write_push("constant", 3).unwrap(),
            w.write_push("constant", 10).unwrap(),
            w.write_arithmetic("lt").unwrap(),
        ],
    );
    assert_eq!(top(&m), 0xFFFF);
    let mut m2 = machine();
    run(
        &mut m2,
        vec![
            w.write_push("constant", 3).unwrap(),
            w.write_push("constant", 10).unwrap(),
            w.write_arithmetic("gt").unwrap(),
        ],
    );
    assert_eq!(top(&m2), 0);
}

#[test]
fn not_and_neg_work_in_place() {
    let mut w = CodeWriter::new();
    let mut m = machine();
    run(
        &mut m,
        vec![
            w.write_push("constant", 0).unwrap(),
            w.write_arithmetic("not").unwrap(),
        ],
    );
    assert_eq!(top(&m), 0xFFFF);
    let mut m2 = machine();
    run(
        &mut m2,
        vec![
            w.write_push("constant", 5).unwrap(),
            w.write_arithmetic("neg").unwrap(),
        ],
    );
    assert_eq!(top(&m2), 0xFFFB);
}

#[test]
fn push_then_pop_local_round_trips() {
    let w = CodeWriter::new();
    let mut m = machine();
    m.write_mem(LCL, 1000);
    m.write_mem(1002, 77);
    run(
        &mut m,
        vec![
            w.write_push("local", 2).unwrap(),
            w.write_pop("local", 2).unwrap(),
        ],
    );
    assert_eq!(m.read_mem(1002), 77);
    assert_eq!(m.read_mem(SP), 256);
    assert_eq!(m.read_mem(LCL), 1000);
}

#[test]
fn push_argument_reads_base_plus_index() {
    let w = CodeWriter::new();
    let mut m = machine();
    m.write_mem(ARG, 1500);
    m.write_mem(1503, 42);
    run(&mut m, vec![w.write_push("argument", 3).unwrap()]);
    assert_eq!(top(&m), 42);
    assert_eq!(m.read_mem(SP), 257);
}

#[test]
fn pop_pointer_zero_sets_this_only() {
    let w = CodeWriter::new();
    let mut m = machine();
    m.write_mem(THIS, 11);
    m.write_mem(THAT, 22);
    run(
        &mut m,
        vec![
            w.write_push("constant", 9000).unwrap(),
            w.write_pop("pointer", 0).unwrap(),
        ],
    );
    assert_eq!(m.read_mem(THIS), 9000);
    assert_eq!(m.read_mem(THAT), 22);
    assert_eq!(m.read_mem(SP), 256);
}

#[test]
fn pop_pointer_one_sets_that_only() {
    let w = CodeWriter::new();
    let mut m = machine();
    m.write_mem(THIS, 11);
    m.write_mem(THAT, 22);
    run(
        &mut m,
        vec![
            w.write_push("constant", 8000).unwrap(),
            w.write_pop("pointer", 1).unwrap(),
        ],
    );
    assert_eq!(m.read_mem(THAT), 8000);
    assert_eq!(m.read_mem(THIS), 11);
}

#[test]
fn pop_static_writes_fixed_cell() {
    let w = CodeWriter::new();
    let mut m = machine();
    run(
        &mut m,
        vec![
            w.write_push("constant", 123).unwrap(),
            w.write_pop("static", 4).unwrap(),
        ],
    );
    assert_eq!(m.read_mem(20), 123);
}

#[test]
fn push_temp_reads_fixed_register() {
    let w = CodeWriter::new();
    let mut m = machine();
    m.write_mem(6, 314);
    run(&mut m, vec![w.write_push("temp", 1).unwrap()]);
    assert_eq!(top(&m), 314);
}
