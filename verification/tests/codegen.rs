//! The generated instruction text, checked against the exact expected
//! assembly for each command family.

use vmtranslator::cmd_type::CmdType;
use vmtranslator::code_writer::{CodeWriter, TranslateError};

fn emit(cmd: CmdType, arg1: &str, arg2: Option<i32>) -> String {
    let mut w = CodeWriter::new();
    w.write_assembly(cmd, Some(arg1.to_string()), arg2).unwrap()
}

#[test]
fn push_constant_text() {
    assert_eq!(
        emit(CmdType::CPush, "constant", Some(17)),
        "@17\nD=A\n@SP\nA=M\nM=D\n@SP\nM=M+1\n"
    );
}

#[test]
fn push_temp_text() {
    assert_eq!(
        emit(CmdType::CPush, "temp", Some(2)),
        "@R7\nD=M\n@SP\nA=M\nM=D\n@SP\nM=M+1\n"
    );
}

#[test]
fn push_local_text() {
    assert_eq!(
        emit(CmdType::CPush, "local", Some(2)),
        "@LCL\nD=M\n@2\nA=D+A\nD=M\n@SP\nA=M\nM=D\n@SP\nM=M+1\n"
    );
}

#[test]
fn push_pointer_text() {
    assert_eq!(
        emit(CmdType::CPush, "pointer", Some(1)),
        "@THAT\nD=M\n@SP\nA=M\nM=D\n@SP\nM=M+1\n"
    );
}

#[test]
fn push_static_text() {
    assert_eq!(
        emit(CmdType::CPush, "static", Some(3)),
        "@19\nD=M\n@SP\nA=M\nM=D\n@SP\nM=M+1\n"
    );
}

#[test]
fn pop_temp_text() {
    assert_eq!(
        emit(CmdType::CPop, "temp", Some(2)),
        "@SP\nAM=M-1\nD=M\n@R7\nM=D\n"
    );
}

#[test]
fn pop_that_text() {
    assert_eq!(
        emit(CmdType::CPop, "that", Some(5)),
        "@THAT\nD=M\n@5\nD=D+A\n@R13\nM=D\n@SP\nAM=M-1\nD=M\n@R13\nA=M\nM=D\n"
    );
}

#[test]
fn pop_pointer_text() {
    assert_eq!(
        emit(CmdType::CPop, "pointer", Some(0)),
        "@THIS\nD=A\n@R13\nM=D\n@SP\nAM=M-1\nD=M\n@R13\nA=M\nM=D\n"
    );
}

#[test]
fn add_text() {
    assert_eq!(
        emit(CmdType::CArithmetic, "add", None),
        "@SP\nAM=M-1\nD=M\nA=A-1\nM=M+D\n"
    );
}

#[test]
fn sub_text() {
    assert_eq!(
        emit(CmdType::CArithmetic, "sub", None),
        "@SP\nAM=M-1\nD=M\nA=A-1\nM=M-D\n"
    );
}

#[test]
fn and_or_text() {
    assert_eq!(
        emit(CmdType::CArithmetic, "and", None),
        "@SP\nAM=M-1\nD=M\nA=A-1\nM=M&D\n"
    );
    assert_eq!(
        emit(CmdType::CArithmetic, "or", None),
        "@SP\nAM=M-1\nD=M\nA=A-1\nM=M|D\n"
    );
}

#[test]
fn not_neg_text() {
    assert_eq!(emit(CmdType::CArithmetic, "not", None), "@SP\nA=M-1\nM=!M\n");
    assert_eq!(emit(CmdType::CArithmetic, "neg", None), "D=0\n@SP\nA=M-1\nM=D-M\n");
}

#[test]
fn eq_text_first_labels() {
    assert_eq!(
        emit(CmdType::CArithmetic, "eq", None),
        "@SP\nAM=M-1\nD=M\nA=A-1\nD=M-D\n@FALSE1\nD;JNE\n@SP\nA=M-1\nM=-1\n@CONTINUE1\n0;JMP\n(FALSE1)\n@SP\nA=M-1\nM=0\n(CONTINUE1)\n"
    );
}

#[test]
fn lt_gt_jump_types() {
    let lt = emit(CmdType::CArithmetic, "lt", None);
    let gt = emit(CmdType::CArithmetic, "gt", None);
    assert!(lt.contains("D;JGE\n"));
    assert!(gt.contains("D;JLE\n"));
}

#[test]
fn comparison_labels_strictly_increase() {
    let mut w = CodeWriter::new();
    let a = w
        .write_assembly(CmdType::CArithmetic, Some("eq".to_string()), None)
        .unwrap();
    let b = w
        .write_assembly(CmdType::CArithmetic, Some("eq".to_string()), None)
        .unwrap();
    let c = w
        .write_assembly(CmdType::CArithmetic, Some("lt".to_string()), None)
        .unwrap();
    assert!(a.contains("(FALSE1)") && a.contains("(CONTINUE1)"));
    assert!(b.contains("(FALSE2)") && b.contains("(CONTINUE2)"));
    assert!(c.contains("(FALSE3)") && c.contains("(CONTINUE3)"));
    assert!(!b.contains("FALSE1") && !c.contains("FALSE2"));
}

#[test]
fn non_comparisons_leave_counter_alone() {
    let mut w = CodeWriter::new();
    w.write_assembly(CmdType::CArithmetic, Some("add".to_string()), None)
        .unwrap();
    w.write_assembly(CmdType::CPush, Some("constant".to_string()), Some(1))
        .unwrap();
    let t = w
        .write_assembly(CmdType::CArithmetic, Some("eq".to_string()), None)
        .unwrap();
    assert!(t.contains("(FALSE1)"));
}

#[test]
fn unknown_push_segment_is_fatal() {
    let w = CodeWriter::new();
    assert_eq!(
        w.write_push("banana", 0),
        Err(TranslateError::InvalidSegment)
    );
}

#[test]
fn unknown_pop_segment_is_fatal() {
    let w = CodeWriter::new();
    assert_eq!(w.write_pop("heap", 1), Err(TranslateError::InvalidSegment));
}

#[test]
fn constant_is_no_pop_target() {
    let w = CodeWriter::new();
    assert_eq!(
        w.write_pop("constant", 3),
        Err(TranslateError::InvalidSegment)
    );
}

#[test]
fn invalid_segment_emits_nothing() {
    let mut w = CodeWriter::new();
    let r = w.write_assembly(CmdType::CPush, Some("banana".to_string()), Some(0));
    assert_eq!(r, Err(TranslateError::InvalidSegment));
}

#[test]
fn unknown_operator_is_an_error() {
    let mut w = CodeWriter::new();
    let r = w.write_assembly(CmdType::CArithmetic, Some("frobnicate".to_string()), None);
    assert_eq!(r, Err(TranslateError::InvalidOperation));
}
