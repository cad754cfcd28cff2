//! The translator: line-oriented source text to instructions.
//!
//! One instruction per line, whitespace-separated tokens, blank lines
//! ignored. Any line whose first token is unrecognized, or whose operand is
//! missing or of the wrong shape (an integer where a name is needed, or the
//! other way round), fails the parse with `UnknownCommand`, naming the
//! 1-based line number and the original text. Empty input fails with
//! `NoCode`.

use vstd::prelude::*;
use vstd::string::StrSliceExecFns;
use vstd::string::StringExecFns;

use crate::bytecode::{code_view, CodeType};
use crate::commands::{Instruction, InstrView};
use crate::errors::{ErrorKind, ErrorView, NoCodeError, ParserError, UnknownCommandError};

verus! {

/// Whether a character beyond ASCII has the white-space property; the
/// result depends on the character alone.
pub uninterp spec fn unicode_whitespace(c: char) -> bool;

/// Whether a character separates tokens: within ASCII exactly the six
/// white-space characters, beyond it the white-space property.
pub open spec fn is_space(c: char) -> bool {
    if (c as u32) < 128 {
        c == ' ' || c == '\t' || c == '\n' || c == '\r' || c as u32 == 11 || c as u32 == 12
    } else {
        unicode_whitespace(c)
    }
}

/// Relies on char::is_whitespace: within ASCII it holds of exactly the
/// six white-space characters, and beyond ASCII it depends on the
/// character alone.
#[verifier::external_body]
fn char_is_space(c: char) -> (r: bool)
    ensures
        r == is_space(c),
        c as u32 >= 128 ==> r == unicode_whitespace(c),
{
    c.is_whitespace()
}

/// The first index at or after `i` holding a character that is not
/// white space, or the end of the sequence.
pub open spec fn skip_spaces(s: Seq<char>, i: int) -> int
    decreases s.len() - i,
{
    if i >= s.len() {
        s.len() as int
    } else if is_space(s[i]) {
        skip_spaces(s, i + 1)
    } else {
        i
    }
}

/// The first index at or after `i` holding white space, or the end of
/// the sequence: the end of the token starting at `i`.
pub open spec fn skip_token(s: Seq<char>, i: int) -> int
    decreases s.len() - i,
{
    if i >= s.len() {
        s.len() as int
    } else if !is_space(s[i]) {
        skip_token(s, i + 1)
    } else {
        i
    }
}

/// The first index at or after `i` holding a line feed, or the end of
/// the sequence.
pub open spec fn line_break(s: Seq<char>, i: int) -> int
    decreases s.len() - i,
{
    if i >= s.len() {
        s.len() as int
    } else if s[i] == '\n' {
        i
    } else {
        line_break(s, i + 1)
    }
}

/// Whether a character is a decimal digit.
pub open spec fn is_digit(c: char) -> bool {
    48 <= c as u32 <= 57
}

/// The value of a decimal digit.
pub open spec fn digit_val(c: char) -> int {
    c as u32 - 48
}

/// Whether every character of the sequence is a decimal digit.
pub open spec fn all_digits(s: Seq<char>) -> bool {
    forall|i: int| 0 <= i < s.len() ==> is_digit(#[trigger] s[i])
}

/// The value of a sequence of decimal digits.
pub open spec fn digits_value(s: Seq<char>) -> int
    decreases s.len(),
{
    if s.len() == 0 {
        0
    } else {
        digits_value(s.drop_last()) * 10 + digit_val(s.last())
    }
}

/// The integer a token stands for: an optional sign, then at least one
/// decimal digit, with a value inside the signed 32-bit range; anything
/// else is no integer.
pub open spec fn int_literal_value(s: Seq<char>) -> Option<i32> {
    let negative = s.len() > 0 && s[0] == '-';
    let body = if s.len() > 0 && (s[0] == '-' || s[0] == '+') {
        s.drop_first()
    } else {
        s
    };
    if body.len() == 0 || !all_digits(body) {
        None
    } else {
        let v = digits_value(body);
        if negative {
            if v <= 0x8000_0000 {
                Some((-v) as i32)
            } else {
                None
            }
        } else {
            if v <= 0x7fff_ffff {
                Some(v as i32)
            } else {
                None
            }
        }
    }
}

/// The character of a decimal digit value.
pub open spec fn digit_char(d: nat) -> char
    recommends
        d < 10,
{
    ((d + 48) as u8) as char
}

/// The decimal digits of a number, most significant first.
pub open spec fn dec_digits(n: nat) -> Seq<char>
    decreases n,
{
    if n < 10 {
        seq![digit_char(n)]
    } else {
        dec_digits(n / 10).push(digit_char(n % 10))
    }
}

/// The diagnostic label of a source line: its 1-based number, a separator,
/// and the original text.
pub open spec fn label_view(k: nat, line: Seq<char>) -> Seq<char> {
    dec_digits(k) + ":     "@ + line
}

/// What one source line translates to: nothing for a blank line, one
/// instruction, or the failure naming the labelled line.
pub open spec fn parse_line(line: Seq<char>, k: nat) -> Result<Option<InstrView>, ErrorView> {
    let label = label_view(k, line);
    let a0 = skip_spaces(line, 0);
    if a0 >= line.len() {
        Ok(None)
    } else {
        let b0 = skip_token(line, a0);
        let cmd = line.subrange(a0, b0);
        let a1 = skip_spaces(line, b0);
        if a1 >= line.len() {
            if cmd == "ADD"@ {
                Ok(Some(InstrView::Add { line: label }))
            } else if cmd == "SUB"@ {
                Ok(Some(InstrView::Sub { line: label }))
            } else if cmd == "MUL"@ {
                Ok(Some(InstrView::Mul { line: label }))
            } else if cmd == "DIV"@ {
                Ok(Some(InstrView::Div { line: label }))
            } else if cmd == "RETURN"@ {
                Ok(Some(InstrView::Return { line: label }))
            } else if cmd == "END_LOOP"@ {
                Ok(Some(InstrView::EndLoop { line: label }))
            } else {
                Err(ErrorView { kind: ErrorKind::UnknownCommand, line: label })
            }
        } else {
            let b1 = skip_token(line, a1);
            let arg = line.subrange(a1, b1);
            match int_literal_value(arg) {
                Some(v) => {
                    if cmd == "LOAD_VAL"@ {
                        Ok(Some(InstrView::LoadValue { value: v, line: label }))
                    } else if cmd == "LOOP"@ {
                        Ok(Some(InstrView::StartLoop { amount_of_repeats: v, line: label }))
                    } else {
                        Err(ErrorView { kind: ErrorKind::UnknownCommand, line: label })
                    }
                },
                None => {
                    if cmd == "WRITE_VAR"@ {
                        Ok(Some(InstrView::WriteVariable { variable_name: arg, line: label }))
                    } else if cmd == "READ_VAR"@ {
                        Ok(Some(InstrView::ReadVariable { variable_name: arg, line: label }))
                    } else {
                        Err(ErrorView { kind: ErrorKind::UnknownCommand, line: label })
                    }
                },
            }
        }
    }
}

/// What the text from `pos` on translates to, line by line, the next line
/// carrying the 1-based number `k`: the instructions of all remaining
/// lines in order, or the first failure.
pub open spec fn parse_lines_from(s: Seq<char>, pos: int, k: nat) -> Result<
    Seq<InstrView>,
    ErrorView,
>
    recommends
        0 <= pos,
    decreases s.len() + 1 - pos,
    when 0 <= pos
    via parse_lines_from_decreases
{
    if pos >= s.len() {
        Ok(Seq::<InstrView>::empty())
    } else {
        let nl = line_break(s, pos);
        let le = if nl < s.len() && nl > pos && s[nl - 1] == '\r' {
            nl - 1
        } else {
            nl
        };
        match parse_line(s.subrange(pos, le), k) {
            Err(e) => Err(e),
            Ok(head) => match parse_lines_from(s, nl + 1, k + 1) {
                Err(e) => Err(e),
                Ok(tail) => Ok(
                    match head {
                        Some(i) => seq![i] + tail,
                        None => tail,
                    },
                ),
            },
        }
    }
}

#[via_fn]
proof fn parse_lines_from_decreases(s: Seq<char>, pos: int, k: nat) {
    if pos < s.len() {
        lemma_line_break_bounds(s, pos);
    }
}

/// What a whole source text translates to: empty input is the `NoCode`
/// failure; otherwise its lines, numbered from one.
pub open spec fn parse_spec(s: Seq<char>) -> Result<Seq<InstrView>, ErrorView> {
    if s.len() == 0 {
        Err(ErrorView { kind: ErrorKind::NoCode, line: Seq::<char>::empty() })
    } else {
        parse_lines_from(s, 0, 1)
    }
}

/// The bound at or after `pos` stays in the sequence.
proof fn lemma_line_break_bounds(s: Seq<char>, i: int)
    requires
        0 <= i <= s.len(),
    ensures
        i <= line_break(s, i) <= s.len(),
    decreases s.len() - i,
{
    if i < s.len() && s[i] != '\n' {
        lemma_line_break_bounds(s, i + 1);
    }
}

/// The value of a digit sequence is never negative.
proof fn lemma_digits_value_nonneg(s: Seq<char>)
    requires
        all_digits(s),
    ensures
        digits_value(s) >= 0,
    decreases s.len(),
{
    if s.len() > 0 {
        lemma_digits_value_nonneg(s.drop_last());
    }
}

/// Extending a digit sequence never shrinks its value.
proof fn lemma_digits_value_prefix(s: Seq<char>, m: int)
    requires
        all_digits(s),
        0 <= m <= s.len(),
    ensures
        digits_value(s.take(m)) <= digits_value(s),
    decreases s.len() - m,
{
    if m < s.len() {
        lemma_digits_value_prefix(s, m + 1);
        assert(s.take(m + 1).drop_last() =~= s.take(m));
        assert(all_digits(s.take(m))) by {
            assert(forall|i: int| 0 <= i < m ==> s.take(m)[i] == s[i]);
        }
        lemma_digits_value_nonneg(s.take(m));
        assert(digits_value(s.take(m + 1)) == digits_value(s.take(m)) * 10 + digit_val(
            s.take(m + 1).last(),
        ));
    } else {
        assert(s.take(m) =~= s);
    }
}

/// Whether two string slices hold the same characters.
fn str_eq(a: &str, b: &str) -> (r: bool)
    ensures
        r == (a@ == b@),
{
    let n = a.unicode_len();
    if n != b.unicode_len() {
        return false;
    }
    let mut i: usize = 0;
    while i < n
        invariant
            i <= n,
            n == a@.len(),
            n == b@.len(),
            forall|j: int| 0 <= j < i ==> a@[j] == b@[j],
        decreases n - i,
    {
        if a.get_char(i) != b.get_char(i) {
            return false;
        }
        i += 1;
    }
    proof {
        assert(a@ =~= b@);
    }
    true
}

/// The integer a token stands for, exactly as [`int_literal_value`] says.
fn parse_i32(token: &str) -> (r: Option<i32>)
    ensures
        r == int_literal_value(token@),
{
    let n = token.unicode_len();
    if n == 0 {
        return None;
    }
    let c0 = token.get_char(0);
    let negative = c0 == '-';
    let has_sign = c0 == '-' || c0 == '+';
    let start: usize = if has_sign {
        1
    } else {
        0
    };
    if start == n {
        return None;
    }
    let ghost body = if has_sign {
        token@.drop_first()
    } else {
        token@
    };
    proof {
        assert(body.len() == n - start);
        assert(forall|j: int| 0 <= j < body.len() ==> body[j] == token@[start + j]);
    }
    let limit: u64 = if negative {
        0x8000_0000
    } else {
        0x7fff_ffff
    };
    let mut acc: u64 = 0;
    let mut i: usize = start;
    while i < n
        invariant
            start <= i <= n,
            0 < n == token@.len(),
            has_sign == (token@[0] == '-' || token@[0] == '+'),
            negative == (token@[0] == '-'),
            start == (if has_sign { 1int } else { 0int }),
            start < n,
            body == (if has_sign { token@.drop_first() } else { token@ }),
            body.len() == n - start,
            forall|j: int| 0 <= j < body.len() ==> body[j] == token@[start + j],
            limit == (if negative { 0x8000_0000u64 } else { 0x7fff_ffffu64 }),
            all_digits(body.take(i - start)),
            acc == digits_value(body.take(i - start)),
            acc <= limit,
        decreases n - i,
    {
        let c = token.get_char(i);
        let u = c as u32;
        if u < 48 || u > 57 {
            proof {
                assert(body[i - start] == token@[i as int]);
                assert(!is_digit(body[i - start]));
            }
            return None;
        }
        let d = (u - 48) as u64;
        let acc2 = acc * 10 + d;
        proof {
            assert(body.take(i + 1 - start) =~= body.take(i - start).push(body[i - start]));
            assert(body.take(i + 1 - start).drop_last() =~= body.take(i - start));
            assert(digits_value(body.take(i + 1 - start)) == acc * 10 + digit_val(body[i - start]));
        }
        if acc2 > limit {
            proof {
                if all_digits(body) {
                    lemma_digits_value_prefix(body, i + 1 - start);
                }
            }
            return None;
        }
        acc = acc2;
        i += 1;
    }
    proof {
        assert(body.take(n - start) =~= body);
    }
    if negative {
        if acc == 0x8000_0000 {
            Some(i32::MIN)
        } else {
            Some(-(acc as i32))
        }
    } else {
        Some(acc as i32)
    }
}

/// Relies on ToString::to_string for usize: the decimal digits of the
/// number, most significant first.
#[verifier::external_body]
fn usize_to_string(n: usize) -> (r: String)
    ensures
        r@ == dec_digits(n as nat),
{
    n.to_string()
}

/// The diagnostic label of a source line, exactly [`label_view`].
fn make_label(line_number: usize, line: &str) -> (r: String)
    ensures
        r@ == label_view(line_number as nat, line@),
{
    let num = usize_to_string(line_number);
    let with_sep = num.concat(":     ");
    with_sep.concat(line)
}

/// Translates one source line, handed as its 0-based number and its text,
/// exactly as [`parse_line`] says for the 1-based number.
fn treat_line_of_code(line_and_number: (usize, &str)) -> (r: Result<Option<Instruction>, ParserError>)
    requires
        line_and_number.0 < usize::MAX,
    ensures
        match parse_line(line_and_number.1@, (line_and_number.0 + 1) as nat) {
            Ok(Some(iv)) => r matches Ok(inner) && (inner matches Some(inst) && inst@ == iv),
            Ok(None) => r matches Ok(inner) && inner is None,
            Err(ev) => r matches Err(e) && e@ == ev,
        },
{
    let (mut line_number, line) = line_and_number;
    line_number += 1;
    let n = line.unicode_len();
    let mut a0: usize = 0;
    while a0 < n && char_is_space(line.get_char(a0))
        invariant
            a0 <= n,
            n == line@.len(),
            skip_spaces(line@, 0) == skip_spaces(line@, a0 as int),
        decreases n - a0,
    {
        a0 += 1;
    }
    if a0 == n {
        return Ok(None);
    }
    let label = make_label(line_number, line);
    let mut b0: usize = a0;
    while b0 < n && !char_is_space(line.get_char(b0))
        invariant
            a0 <= b0 <= n,
            n == line@.len(),
            skip_token(line@, a0 as int) == skip_token(line@, b0 as int),
        decreases n - b0,
    {
        b0 += 1;
    }
    let cmd = line.substring_char(a0, b0);
    let mut a1: usize = b0;
    while a1 < n && char_is_space(line.get_char(a1))
        invariant
            b0 <= a1 <= n,
            n == line@.len(),
            skip_spaces(line@, b0 as int) == skip_spaces(line@, a1 as int),
        decreases n - a1,
    {
        a1 += 1;
    }
    if a1 == n {
        if str_eq(cmd, "ADD") {
            return Ok(Some(Instruction::Add { line: label }));
        }
        if str_eq(cmd, "SUB") {
            return Ok(Some(Instruction::Sub { line: label }));
        }
        if str_eq(cmd, "MUL") {
            return Ok(Some(Instruction::Mul { line: label }));
        }
        if str_eq(cmd, "DIV") {
            return Ok(Some(Instruction::Div { line: label }));
        }
        if str_eq(cmd, "RETURN") {
            return Ok(Some(Instruction::Return { line: label }));
        }
        if str_eq(cmd, "END_LOOP") {
            return Ok(Some(Instruction::EndLoop { line: label }));
        }
        return Err(ParserError::from(UnknownCommandError::new(label.as_str())));
    }
    let mut b1: usize = a1;
    while b1 < n && !char_is_space(line.get_char(b1))
        invariant
            a1 <= b1 <= n,
            n == line@.len(),
            skip_token(line@, a1 as int) == skip_token(line@, b1 as int),
        decreases n - b1,
    {
        b1 += 1;
    }
    let argument = line.substring_char(a1, b1);
    match parse_i32(argument) {
        Some(value) => {
            if str_eq(cmd, "LOAD_VAL") {
                return Ok(Some(Instruction::LoadValue { value, line: label }));
            }
            if str_eq(cmd, "LOOP") {
                return Ok(Some(Instruction::StartLoop { amount_of_repeats: value, line: label }));
            }
            Err(ParserError::from(UnknownCommandError::new(label.as_str())))
        },
        None => {
            if str_eq(cmd, "WRITE_VAR") {
                return Ok(Some(Instruction::WriteVariable {
                    variable_name: argument.to_owned(),
                    line: label,
                }));
            }
            if str_eq(cmd, "READ_VAR") {
                return Ok(Some(Instruction::ReadVariable {
                    variable_name: argument.to_owned(),
                    line: label,
                }));
            }
            Err(ParserError::from(UnknownCommandError::new(label.as_str())))
        },
    }
}

/// Translates a whole source text into the ordered instruction sequence,
/// exactly as [`parse_spec`] says: the instructions of its lines in
/// order, the first failure, or `NoCode` for empty input.
pub fn parse(input: String) -> (r: Result<CodeType, ParserError>)
    requires
        input@.len() < usize::MAX,
    ensures
        match parse_spec(input@) {
            Ok(ivs) => r matches Ok(code) && code_view(code@) == ivs,
            Err(ev) => r matches Err(e) && e@ == ev,
        },
{
    let text = input.as_str();
    if text.is_empty() {
        return Err(ParserError::from(NoCodeError));
    }
    let n = text.unicode_len();
    let mut code: CodeType = CodeType::new();
    let mut pos: usize = 0;
    let mut line_number: usize = 0;
    proof {
        match parse_lines_from(text@, 0, 1) {
            Ok(tail) => {
                assert(code_view(code@) + tail =~= tail);
            },
            Err(_) => {},
        }
    }
    while pos < n
        invariant
            pos <= n,
            n == text@.len(),
            n < usize::MAX,
            line_number <= pos,
            parse_spec(input@) == parse_lines_from(text@, 0, 1),
            parse_lines_from(text@, 0, 1) == (match parse_lines_from(
                text@,
                pos as int,
                (line_number + 1) as nat,
            ) {
                Ok(tail) => Ok::<Seq<InstrView>, ErrorView>(code_view(code@) + tail),
                Err(e) => Err::<Seq<InstrView>, ErrorView>(e),
            }),
        decreases n - pos,
    {
        let ghost pos0 = pos as int;
        let ghost k0 = (line_number + 1) as nat;
        let mut j: usize = pos;
        while j < n && text.get_char(j) != '\n'
            invariant
                pos <= j <= n,
                n == text@.len(),
                line_break(text@, pos as int) == line_break(text@, j as int),
            decreases n - j,
        {
            j += 1;
        }
        proof {
            assert(line_break(text@, j as int) == j as int);
        }
        let le: usize = if j < n && j > pos && text.get_char(j - 1) == '\r' {
            j - 1
        } else {
            j
        };
        let line = text.substring_char(pos, le);
        let ghost nl = line_break(text@, pos0);
        let ghost rest0 = parse_lines_from(text@, pos0, k0);
        proof {
            assert(nl == j as int);
            assert(line@ == text@.subrange(pos0, le as int));
        }
        let ghost prev_code = code@;
        match treat_line_of_code((line_number, line)) {
            Err(e) => {
                proof {
                    assert(rest0 is Err);
                }
                return Err(e);
            },
            Ok(Some(instruction)) => {
                code.push(instruction);
                proof {
                    assert(code_view(code@) =~= code_view(prev_code).push(code@.last()@));
                    match parse_lines_from(text@, nl + 1, (k0 + 1) as nat) {
                        Ok(tail) => {
                            assert(code_view(prev_code) + (seq![code@.last()@] + tail)
                                =~= code_view(code@) + tail);
                        },
                        Err(_) => {},
                    }
                }
            },
            Ok(None) => {},
        }
        proof {
            if nl + 1 > n as int {
                assert(parse_lines_from(text@, nl + 1, (k0 + 1) as nat) == Ok::<
                    Seq<InstrView>,
                    ErrorView,
                >(Seq::<InstrView>::empty()));
                assert(parse_lines_from(text@, n as int, (k0 + 1) as nat) == Ok::<
                    Seq<InstrView>,
                    ErrorView,
                >(Seq::<InstrView>::empty()));
            }
        }
        pos = if j < n {
            j + 1
        } else {
            n
        };
        line_number += 1;
    }
    proof {
        assert(parse_lines_from(text@, n as int, (line_number + 1) as nat) == Ok::<
            Seq<InstrView>,
            ErrorView,
        >(Seq::<InstrView>::empty()));
        assert(code_view(code@) + Seq::<InstrView>::empty() =~= code_view(code@));
    }
    Ok(code)
}

} // verus!
