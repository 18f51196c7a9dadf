//! The command classifier: kinds, operand extraction, integer parsing.

use vmtranslator::cmd_type::CmdType;
use vmtranslator::parser::parse_command;

#[test]
fn parse_push_with_index() {
    let (k, a1, a2) = parse_command("push constant 7");
    assert_eq!(k, CmdType::CPush);
    assert_eq!(a1, Some("constant".to_string()));
    assert_eq!(a2, Some(7));
}

#[test]
fn parse_pop_with_index() {
    let (k, a1, a2) = parse_command("pop local 0");
    assert_eq!(k, CmdType::CPop);
    assert_eq!(a1, Some("local".to_string()));
    assert_eq!(a2, Some(0));
}

#[test]
fn parse_arithmetic_carries_operator() {
    let (k, a1, a2) = parse_command("add");
    assert_eq!(k, CmdType::CArithmetic);
    assert_eq!(a1, Some("add".to_string()));
    assert_eq!(a2, None);
}

#[test]
fn parse_unknown_token_falls_back_to_arithmetic() {
    let (k, a1, a2) = parse_command("frobnicate 1 2");
    assert_eq!(k, CmdType::CArithmetic);
    assert_eq!(a1, Some("frobnicate".to_string()));
    assert_eq!(a2, Some(2));
}

#[test]
fn parse_control_flow_kinds() {
    assert_eq!(parse_command("label LOOP").0, CmdType::CLabel);
    assert_eq!(parse_command("goto LOOP").0, CmdType::CGoto);
    assert_eq!(parse_command("if-goto LOOP").0, CmdType::CIf);
    assert_eq!(parse_command("function f 2").0, CmdType::CFunction);
    assert_eq!(parse_command("call f 2").0, CmdType::CCall);
    assert_eq!(parse_command("return").0, CmdType::CReturn);
}

#[test]
fn parse_second_token_as_first_operand() {
    let (k, a1, a2) = parse_command("label END");
    assert_eq!(k, CmdType::CLabel);
    assert_eq!(a1, Some("END".to_string()));
    assert_eq!(a2, None);
}

#[test]
fn parse_missing_second_token_gives_no_operand() {
    let (k, a1, _) = parse_command("push");
    assert_eq!(k, CmdType::CPush);
    assert_eq!(a1, None);
}

#[test]
fn parse_malformed_index_is_absent() {
    let (_, _, a2) = parse_command("push constant abc");
    assert_eq!(a2, None);
}

#[test]
fn parse_index_only_with_exactly_three_tokens() {
    let (_, _, a2) = parse_command("push constant 3 9");
    assert_eq!(a2, None);
}

#[test]
fn parse_splits_on_whitespace_runs() {
    let (k, a1, a2) = parse_command("push   local\t3");
    assert_eq!(k, CmdType::CPush);
    assert_eq!(a1, Some("local".to_string()));
    assert_eq!(a2, Some(3));
}

#[test]
fn parse_signed_indices() {
    assert_eq!(parse_command("push constant -5").2, Some(-5));
    assert_eq!(parse_command("push constant +5").2, Some(5));
}

#[test]
fn parse_integer_bounds() {
    assert_eq!(parse_command("push constant 2147483647").2, Some(2147483647));
    assert_eq!(parse_command("push constant 2147483648").2, None);
    assert_eq!(
        parse_command("push constant -2147483648").2,
        Some(-2147483648)
    );
    assert_eq!(parse_command("push constant -2147483649").2, None);
    assert_eq!(parse_command("push constant 99999999999999999999").2, None);
    assert_eq!(parse_command("push constant 0000000012").2, Some(12));
}

#[test]
fn parse_sign_alone_is_absent() {
    assert_eq!(parse_command("push constant -").2, None);
    assert_eq!(parse_command("push constant +").2, None);
}
