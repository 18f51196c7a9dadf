//! The command classifier: one trimmed source line to a command descriptor.
//!
//! A line splits on runs of whitespace into tokens; the first token fixes the
//! command kind (an unknown first token falls back to the arithmetic-logic
//! kind, as the reference behaviour tolerates); the operands come from the
//! first and second remaining tokens. A malformed integer in the third token
//! is treated as absent rather than an error.

use vstd::prelude::*;

use crate::cmd_type::CmdType;
use crate::strutil::str_eq;

verus! {

/// Whitespace for token splitting: the ASCII whitespace characters.
pub open spec fn is_space(c: char) -> bool {
    c == ' ' || c == '\t' || c == '\n' || c == '\r' || c == '\u{0b}' || c == '\u{0c}'
}

/// The length of the leading run of non-whitespace characters.
pub open spec fn token_len(s: Seq<char>) -> nat
    decreases s.len(),
{
    if s.len() == 0 || is_space(s[0]) {
        0nat
    } else {
        1nat + token_len(s.drop_first())
    }
}

/// The leading token is never longer than the text, runs over non-whitespace
/// only, and stops at whitespace.
pub proof fn lemma_token_len(s: Seq<char>)
    ensures
        token_len(s) <= s.len(),
        forall|k: int| 0 <= k < token_len(s) ==> !is_space(#[trigger] s[k]),
        token_len(s) < s.len() ==> is_space(s[token_len(s) as int]),
    decreases s.len(),
{
    if s.len() == 0 || is_space(s[0]) {
    } else {
        lemma_token_len(s.drop_first());
        assert forall|k: int| 0 <= k < token_len(s) implies !is_space(#[trigger] s[k]) by {
            if k > 0 {
                assert(!is_space(s.drop_first()[k - 1]));
                assert(s.drop_first()[k - 1] == s[k]);
            }
        }
        if token_len(s) < s.len() {
            assert(is_space(s.drop_first()[token_len(s) - 1]));
            assert(s.drop_first()[token_len(s) - 1] == s[token_len(s) as int]);
        }
    }
}

/// The leading token has length `m` exactly when the first `m` characters are
/// non-whitespace and the text ends or holds whitespace there.
pub proof fn lemma_token_len_eq(s: Seq<char>, m: int)
    requires
        0 <= m <= s.len(),
        forall|k: int| 0 <= k < m ==> !is_space(#[trigger] s[k]),
        m < s.len() ==> is_space(s[m]),
    ensures
        token_len(s) == m,
    decreases m,
{
    if m == 0 {
    } else {
        assert(!is_space(s[0]));
        assert forall|k: int| 0 <= k < m - 1 implies !is_space(#[trigger] s.drop_first()[k]) by {
            assert(s.drop_first()[k] == s[k + 1]);
        }
        if m - 1 < s.drop_first().len() {
            assert(s.drop_first()[m - 1] == s[m]);
        }
        lemma_token_len_eq(s.drop_first(), m - 1);
    }
}

/// The whitespace-separated tokens of `s`, in order.
pub open spec fn tokens(s: Seq<char>) -> Seq<Seq<char>>
    decreases s.len(),
    via tokens_decreases
{
    if s.len() == 0 {
        Seq::empty()
    } else if is_space(s[0]) {
        tokens(s.drop_first())
    } else {
        seq![s.take(token_len(s) as int)] + tokens(s.skip(token_len(s) as int))
    }
}

#[via_fn]
proof fn tokens_decreases(s: Seq<char>) {
    if s.len() != 0 && !is_space(s[0]) {
        lemma_token_len(s);
    }
}

/// The decimal value of one digit character, or -1 for any other character.
pub open spec fn digit_val(c: char) -> int {
    if c == '0' {
        0
    } else if c == '1' {
        1
    } else if c == '2' {
        2
    } else if c == '3' {
        3
    } else if c == '4' {
        4
    } else if c == '5' {
        5
    } else if c == '6' {
        6
    } else if c == '7' {
        7
    } else if c == '8' {
        8
    } else if c == '9' {
        9
    } else {
        -1
    }
}

/// Whether a character is a decimal digit.
pub open spec fn is_digit(c: char) -> bool {
    digit_val(c) >= 0
}

/// Whether every character of `s` is a decimal digit.
pub open spec fn all_digits(s: Seq<char>) -> bool {
    forall|k: int| 0 <= k < s.len() ==> is_digit(#[trigger] s[k])
}

/// The value of a digit string, most significant digit first.
pub open spec fn digits_val(s: Seq<char>) -> int
    decreases s.len(),
{
    if s.len() == 0 {
        0
    } else {
        digits_val(s.drop_last()) * 10 + digit_val(s.last())
    }
}

/// The signed 32-bit integer a token denotes: an optional `+`/`-` sign, then
/// at least one digit, valued within the type's range; `None` otherwise.
pub open spec fn parse_i32(s: Seq<char>) -> Option<i32> {
    if s.len() == 0 {
        None
    } else {
        let neg = s[0] == '-';
        let ds = if s[0] == '-' || s[0] == '+' {
            s.drop_first()
        } else {
            s
        };
        if ds.len() == 0 || !all_digits(ds) {
            None
        } else {
            let v = if neg {
                -digits_val(ds)
            } else {
                digits_val(ds)
            };
            if i32::MIN <= v <= i32::MAX {
                Some(v as i32)
            } else {
                None
            }
        }
    }
}

/// The command kind named by a first token; an unrecognized token falls back
/// to the arithmetic-logic kind.
pub open spec fn kind_of(t: Seq<char>) -> CmdType {
    if t == "push"@ {
        CmdType::CPush
    } else if t == "pop"@ {
        CmdType::CPop
    } else if t == "label"@ {
        CmdType::CLabel
    } else if t == "goto"@ {
        CmdType::CGoto
    } else if t == "if-goto"@ {
        CmdType::CIf
    } else if t == "function"@ {
        CmdType::CFunction
    } else if t == "call"@ {
        CmdType::CCall
    } else if t == "return"@ {
        CmdType::CReturn
    } else {
        CmdType::CArithmetic
    }
}

/// Whether a character is splitting whitespace.
pub fn is_space_char(c: char) -> (r: bool)
    ensures
        r == is_space(c),
{
    c == ' ' || c == '\t' || c == '\n' || c == '\r' || c == '\u{0b}' || c == '\u{0c}'
}

/// Splits a line on runs of whitespace into its tokens.
pub fn split_ws(s: &str) -> (r: Vec<String>)
    ensures
        r.deep_view() == tokens(s@),
{
    let n = s.unicode_len();
    let mut toks: Vec<String> = Vec::new();
    let mut i: usize = 0;
    proof {
        assert(s@.skip(0) =~= s@);
        assert(toks.deep_view() + tokens(s@) =~= tokens(s@));
    }
    while i < n
        invariant
            i <= n,
            n == s@.len(),
            toks.deep_view() + tokens(s@.skip(i as int)) == tokens(s@),
        decreases n - i,
    {
        let c = s.get_char(i);
        if is_space_char(c) {
            proof {
                assert(s@.skip(i as int).drop_first() =~= s@.skip(i as int + 1));
            }
            i += 1;
        } else {
            let mut j = i + 1;
            while j < n && !is_space_char(s.get_char(j))
                invariant
                    i < j <= n,
                    n == s@.len(),
                    forall|k: int| i <= k < j ==> !is_space(#[trigger] s@[k]),
                decreases n - j,
            {
                j += 1;
            }
            let tok = s.substring_char(i, j);
            let ghost t = s@.skip(i as int);
            proof {
                assert forall|k: int| 0 <= k < j - i implies !is_space(#[trigger] t[k]) by {
                    assert(t[k] == s@[k + i]);
                }
                if j < n {
                    assert(is_space(t[j - i]));
                }
                lemma_token_len_eq(t, j - i as int);
                assert(t.take(j - i as int) =~= s@.subrange(i as int, j as int));
                assert(t.skip(j - i as int) =~= s@.skip(j as int));
                assert(tokens(t) == seq![s@.subrange(i as int, j as int)] + tokens(
                    s@.skip(j as int),
                ));
            }
            let owned = tok.to_owned();
            toks.push(owned);
            proof {
                assert(toks.deep_view() + tokens(s@.skip(j as int)) =~~= tokens(s@));
            }
            i = j;
        }
    }
    proof {
        assert(s@.skip(n as int) =~= Seq::<char>::empty());
        assert(toks.deep_view() =~~= tokens(s@));
    }
    toks
}

/// Parses a token as a signed 32-bit integer, exactly [`parse_i32`].
pub fn parse_int_token(s: &str) -> (r: Option<i32>)
    ensures
        r == parse_i32(s@),
{
    let n = s.unicode_len();
    if n == 0 {
        return None;
    }
    let first = s.get_char(0);
    let neg = first == '-';
    let start: usize = if first == '-' || first == '+' {
        1
    } else {
        0
    };
    let ghost ds = if first == '-' || first == '+' {
        s@.drop_first()
    } else {
        s@
    };
    proof {
        assert(ds =~= s@.subrange(start as int, n as int));
    }
    if n == start {
        return None;
    }
    let mut i = start;
    let mut acc: u64 = 0;
    let mut over = false;
    proof {
        assert(s@.subrange(start as int, start as int) =~= Seq::<char>::empty());
    }
    while i < n
        invariant
            start <= i <= n,
            0 < n == s@.len(),
            start == if s@[0] == '-' || s@[0] == '+' { 1int } else { 0int },
            neg == (s@[0] == '-'),
            start < n,
            ds == if s@[0] == '-' || s@[0] == '+' { s@.drop_first() } else { s@ },
            ds == s@.subrange(start as int, n as int),
            forall|k: int| start <= k < i ==> is_digit(#[trigger] s@[k]),
            !over ==> acc as int == digits_val(s@.subrange(start as int, i as int)) && acc
                <= 0x8000_0000,
            over ==> digits_val(s@.subrange(start as int, i as int)) > 0x8000_0000,
        decreases n - i,
    {
        let c = s.get_char(i);
        let d: u64 = if c == '0' {
            0
        } else if c == '1' {
            1
        } else if c == '2' {
            2
        } else if c == '3' {
            3
        } else if c == '4' {
            4
        } else if c == '5' {
            5
        } else if c == '6' {
            6
        } else if c == '7' {
            7
        } else if c == '8' {
            8
        } else if c == '9' {
            9
        } else {
            proof {
                assert(ds[i - start] == s@[i as int]);
                assert(!all_digits(ds));
            }
            return None;
        };
        proof {
            let pre = s@.subrange(start as int, i as int);
            let ext = s@.subrange(start as int, i as int + 1);
            assert(ext.drop_last() =~= pre);
            assert(ext.last() == s@[i as int]);
            if over {
                assert(digits_val(pre) * 10 >= digits_val(pre)) by (nonlinear_arith)
                    requires
                        digits_val(pre) > 0,
                ;
            }
        }
        if !over {
            acc = acc * 10 + d;
            if acc > 0x8000_0000 {
                over = true;
            }
        }
        i += 1;
    }
    proof {
        assert(s@.subrange(start as int, n as int) == ds);
        assert(all_digits(ds));
    }
    if over {
        return None;
    }
    if neg {
        let v = -(acc as i64);
        Some(v as i32)
    } else {
        if acc > 0x7FFF_FFFF {
            return None;
        }
        Some(acc as i32)
    }
}

/// The command kind of a first token, exactly [`kind_of`].
pub fn classify(t: &str) -> (k: CmdType)
    ensures
        k == kind_of(t@),
{
    if str_eq(t, "push") {
        CmdType::CPush
    } else if str_eq(t, "pop") {
        CmdType::CPop
    } else if str_eq(t, "label") {
        CmdType::CLabel
    } else if str_eq(t, "goto") {
        CmdType::CGoto
    } else if str_eq(t, "if-goto") {
        CmdType::CIf
    } else if str_eq(t, "function") {
        CmdType::CFunction
    } else if str_eq(t, "call") {
        CmdType::CCall
    } else if str_eq(t, "return") {
        CmdType::CReturn
    } else {
        CmdType::CArithmetic
    }
}

/// Classifies one trimmed, non-empty, non-comment source line: the command
/// kind from the first token; the first operand (the operator name itself for
/// an arithmetic-logic command, the second token otherwise); the integer
/// index, present exactly when the line has three tokens and the third parses.
pub fn parse_command(command: &str) -> (r: (CmdType, Option<String>, Option<i32>))
    requires
        tokens(command@).len() > 0,
    ensures
        r.0 == kind_of(tokens(command@)[0]),
        r.0 == CmdType::CArithmetic ==> (r.1 matches Some(a) && a@ == tokens(command@)[0]),
        r.0 != CmdType::CArithmetic && tokens(command@).len() >= 2 ==> (r.1 matches Some(a)
            && a@ == tokens(command@)[1]),
        r.0 != CmdType::CArithmetic && tokens(command@).len() < 2 ==> r.1 is None,
        r.2 == if tokens(command@).len() == 3 {
            parse_i32(tokens(command@)[2])
        } else {
            None::<i32>
        },
{
    let toks = split_ws(command);
    proof {
        assert(toks.deep_view().len() == toks@.len());
        assert(toks.deep_view()[0] == toks@[0]@);
    }
    let kind = classify(toks[0].as_str());
    let arg1: Option<String> = if kind == CmdType::CArithmetic {
        Some(toks[0].clone())
    } else if toks.len() >= 2 {
        proof {
            assert(toks.deep_view()[1] == toks@[1]@);
        }
        Some(toks[1].clone())
    } else {
        None
    };
    let arg2: Option<i32> = if toks.len() == 3 {
        proof {
            assert(toks.deep_view()[2] == toks@[2]@);
        }
        parse_int_token(toks[2].as_str())
    } else {
        None
    };
    (kind, arg1, arg2)
}

} // verus!
